//! The search itself: what is found, how a file is tested, and the walk
//! through the directories.
//!
//! The walk is a state machine. The caller asks it for directories, lists
//! them, and hands each listing back; the walk decides what is kept, what is
//! entered next and what still has to be hashed.

pub mod settings;
pub mod build_tree;
pub mod order;
pub mod unique;
pub mod transfer;
pub mod digest;
pub mod export;

pub use crate::search_file::order::sort_files;
pub use crate::search_file::transfer::{copy_files, delete_files, mapping_files, move_files};
pub use crate::search_file::unique::unique_files;

use vstd::prelude::*;
use crate::search_file::settings::{
    Settings,
    TimeLimit,
    FILE_ATTRIBUTE_HIDDEN,
    FILE_ATTRIBUTE_READONLY,
    FILE_ATTRIBUTE_SYSTEM,
};
use crate::text::text_views;
use vstd::std_specs::iter::IteratorSpec;

verus! {

/// One file that a search has found.
#[derive(Debug, PartialEq, Eq)]
pub struct SingleFileInformations {
    /// The absolute path of the file.
    pub path: String,
    /// The last component of the path.
    pub name: String,
    /// The size in bytes.
    pub size: u64,
    /// The time of the last modification, in seconds since the epoch.
    pub time: u64,
    /// The digest of the content in hexadecimal; empty where none was taken.
    pub hash: String,
}

/// What a `SingleFileInformations` holds, as mathematical values.
pub struct FileView {
    pub path: Seq<char>,
    pub name: Seq<char>,
    pub size: u64,
    pub time: u64,
    pub hash: Seq<char>,
}

impl View for SingleFileInformations {
    type V = FileView;

    open spec fn view(&self) -> FileView {
        FileView {
            path: self.path@,
            name: self.name@,
            size: self.size,
            time: self.time,
            hash: self.hash@,
        }
    }
}

impl Clone for SingleFileInformations {
    fn clone(&self) -> (copy: Self)
        ensures
            copy == *self,
    {
        SingleFileInformations {
            path: self.path.clone(),
            name: self.name.clone(),
            size: self.size,
            time: self.time,
            hash: self.hash.clone(),
        }
    }
}

/// The views of the files of a collection, in its order.
pub open spec fn file_views(files: Seq<SingleFileInformations>) -> Seq<FileView> {
    Seq::new(files.len(), |i: int| files[i]@)
}

/// What the file system tells of a file without reading it.
#[derive(Debug, Clone, Copy, PartialEq, Eq, Structural)]
pub struct FileMetadata {
    /// The size in bytes.
    pub size: u64,
    /// The time of the last modification, in seconds since the epoch.
    pub modified: u64,
    /// The attribute bits: read-only, hidden, system.
    pub attributes: u32,
}

/// What a directory entry is.
#[derive(Debug, Clone, Copy, PartialEq, Eq, Structural)]
pub enum EntryKind {
    /// A directory.
    Directory,
    /// A regular file, with its metadata.
    File { metadata: FileMetadata },
    /// Neither of the two.
    Other,
    /// An entry whose metadata could not be read.
    Unreadable,
}

/// One entry of a directory's listing.
#[derive(Debug, Clone, PartialEq, Eq)]
pub struct DirectoryEntry {
    /// The name of the entry within its directory.
    pub name: String,
    /// The absolute path of the entry.
    pub path: String,
    pub kind: EntryKind,
}

/// What a `DirectoryEntry` holds, as mathematical values.
pub struct EntryView {
    pub name: Seq<char>,
    pub path: Seq<char>,
    pub kind: EntryKind,
}

impl View for DirectoryEntry {
    type V = EntryView;

    open spec fn view(&self) -> EntryView {
        EntryView { name: self.name@, path: self.path@, kind: self.kind }
    }
}

/// The views of the entries of a listing, in its order.
pub open spec fn entry_views(entries: Seq<DirectoryEntry>) -> Seq<EntryView> {
    Seq::new(entries.len(), |i: int| entries[i]@)
}

/// A directory that waits to be listed, with the depth that is left there:
/// at depth 1 or less its files are taken and its directories are not entered.
#[derive(Debug, Clone, PartialEq, Eq)]
pub struct PendingDirectory {
    pub path: String,
    pub depth: u8,
}

/// What a `PendingDirectory` holds, as mathematical values.
pub struct PendingView {
    pub path: Seq<char>,
    pub depth: u8,
}

impl View for PendingDirectory {
    type V = PendingView;

    open spec fn view(&self) -> PendingView {
        PendingView { path: self.path@, depth: self.depth }
    }
}

/// The views of the directories of a collection, in its order.
pub open spec fn pending_views(directories: Seq<PendingDirectory>) -> Seq<PendingView> {
    Seq::new(directories.len(), |i: int| directories[i]@)
}

/// Whether a name is that of a hidden entry: it begins with a dot.
pub open spec fn is_hidden_name(name: Seq<char>) -> bool {
    name.len() > 0 && name[0] == '.'
}

/// Whether the entry's name marks it as hidden.
pub fn is_hidden(name: &str) -> (hidden: bool)
    ensures
        hidden == is_hidden_name(name@),
{
    let mut chars = name.chars();
    match chars.next() {
        Some(first) => first == '.',
        None => false,
    }
}

/// Whether a time of modification meets the limit, at the time `now`.
///
/// A relative limit asks whether the file was modified after `now` minus the
/// limit's seconds, and takes the file exactly when the answer is the one
/// that `newer` names.
pub open spec fn time_allows(limit: TimeLimit, modified: u64, now: u64) -> bool {
    match limit {
        TimeLimit::Unlimited => true,
        TimeLimit::Relative { seconds, newer } => (modified > now - seconds) == newer,
        TimeLimit::Absolute { minimum, maximum } => minimum <= modified <= maximum,
    }
}

/// Whether a file with this metadata meets the settings, at the time `now`.
pub open spec fn matches(metadata: FileMetadata, settings: Settings, now: u64) -> bool {
    &&& settings.search_hidden_files || metadata.attributes & FILE_ATTRIBUTE_HIDDEN == 0
    &&& settings.search_filesize_minimum_limit <= metadata.size
        <= settings.search_filesize_maximum_limit
    &&& settings.search_readonly || metadata.attributes & FILE_ATTRIBUTE_READONLY == 0
    &&& settings.search_system_files || metadata.attributes & FILE_ATTRIBUTE_SYSTEM == 0
    &&& time_allows(settings.time_limit, metadata.modified, now)
}

/// Tests a file's metadata against the settings. The answer depends on the
/// three arguments alone.
pub fn filter(metadata: &FileMetadata, settings: &Settings, now: u64) -> (accepted: bool)
    ensures
        accepted == matches(*metadata, *settings, now),
{
    if !settings.search_hidden_files && metadata.attributes & FILE_ATTRIBUTE_HIDDEN != 0 {
        return false;
    }
    if metadata.size > settings.search_filesize_maximum_limit {
        return false;
    }
    if metadata.size < settings.search_filesize_minimum_limit {
        return false;
    }
    if !settings.search_readonly && metadata.attributes & FILE_ATTRIBUTE_READONLY != 0 {
        return false;
    }
    match settings.time_limit {
        TimeLimit::Unlimited => {},
        TimeLimit::Relative { seconds, newer } => {
            let is_newer = seconds > now || metadata.modified > now - seconds;
            if is_newer != newer {
                return false;
            }
        },
        TimeLimit::Absolute { minimum, maximum } => {
            if maximum < 0 || metadata.modified > maximum as u64 {
                return false;
            }
            if minimum > 0 && metadata.modified < minimum as u64 {
                return false;
            }
        },
    }
    if !settings.search_system_files && metadata.attributes & FILE_ATTRIBUTE_SYSTEM != 0 {
        return false;
    }
    true
}

/// With a relative limit, asking for the older files takes exactly the files
/// that asking for the newer ones leaves, all else being equal.
pub proof fn lemma_relative_polarity(seconds: u64, newer: bool, modified: u64, now: u64)
    ensures
        time_allows(TimeLimit::Relative { seconds, newer }, modified, now) == !time_allows(
            TimeLimit::Relative { seconds, newer: !newer },
            modified,
            now,
        ),
        time_allows(TimeLimit::Relative { seconds, newer: true }, modified, now) == (now - modified
            < seconds),
{
}

/// An absolute limit takes the times from its minimum to its maximum, both
/// included, and no other.
pub proof fn lemma_absolute_range_inclusive(minimum: i64, maximum: i64, modified: u64, now: u64)
    ensures
        minimum <= maximum && modified == minimum ==> time_allows(
            TimeLimit::Absolute { minimum, maximum },
            modified,
            now,
        ),
        minimum <= maximum && modified == maximum ==> time_allows(
            TimeLimit::Absolute { minimum, maximum },
            modified,
            now,
        ),
        modified < minimum || modified > maximum ==> !time_allows(
            TimeLimit::Absolute { minimum, maximum },
            modified,
            now,
        ),
{
}

/// Whether a pattern is a regular expression that can be compiled.
pub uninterp spec fn regex_compiles(pattern: Seq<char>) -> bool;

/// Whether the regular expression `pattern` matches anywhere in `text`.
pub uninterp spec fn regex_finds(pattern: Seq<char>, text: Seq<char>) -> bool;

/// `Regex::new` of the regex crate, and on what it compiled `Regex::is_match`:
/// nothing for a pattern that does not compile, else whether the expression
/// matches somewhere in the text.
#[verifier::external_body]
fn regex_search(pattern: &str, text: &str) -> (found: Option<bool>)
    ensures
        found == (if regex_compiles(pattern@) {
            Some(regex_finds(pattern@, text@))
        } else {
            None
        }),
{
    match regex::Regex::new(pattern) {
        Ok(expression) => Some(expression.is_match(text)),
        Err(_) => None,
    }
}

/// Whether the pattern can be used in a search.
pub fn pattern_is_valid(pattern: &str) -> (valid: bool)
    ensures
        valid == regex_compiles(pattern@),
{
    regex_search(pattern, "").is_some()
}

/// Whether a file passes the pattern of the settings: there is no pattern, or
/// it compiles and matches the file's name or, where the settings say so,
/// its path.
pub open spec fn pattern_accepts(settings: Settings, name: Seq<char>, path: Seq<char>) -> bool {
    settings.file_regex@.len() == 0 || (regex_compiles(settings.file_regex@) && regex_finds(
        settings.file_regex@,
        if settings.regex_contain_path {
            path
        } else {
            name
        },
    ))
}

/// Tests a file's name or path against the pattern of the settings.
pub fn pattern_test(settings: &Settings, name: &str, path: &str) -> (accepted: bool)
    ensures
        accepted == pattern_accepts(*settings, name@, path@),
{
    if settings.file_regex.as_str().is_empty() {
        return true;
    }
    let subject = if settings.regex_contain_path {
        path
    } else {
        name
    };
    match regex_search(settings.file_regex.as_str(), subject) {
        Some(found) => found,
        None => false,
    }
}

/// A search in progress.
///
/// It owns its settings and the time it was started at, so that every file
/// of one search is tested against the same values.
pub struct Walk {
    settings: Settings,
    now: u64,
    pending: Vec<PendingDirectory>,
    unhashed: Vec<SingleFileInformations>,
    found: Vec<SingleFileInformations>,
    warnings: Vec<String>,
}

/// What a `Walk` holds, as mathematical values.
pub struct WalkView {
    /// The settings of the search.
    pub settings: Settings,
    /// The time of the search, in seconds since the epoch.
    pub now: u64,
    /// The directories that wait to be listed; the last is handed out first.
    pub pending: Seq<PendingView>,
    /// The files that were accepted and wait for their digest; the last is
    /// handed out first.
    pub unhashed: Seq<FileView>,
    /// The files found so far.
    pub found: Seq<FileView>,
    /// The paths of what could not be read and was passed over.
    pub warnings: Seq<Seq<char>>,
}

/// The record of a file entry as the walk first makes it: without digest.
pub open spec fn found_record(entry: EntryView, metadata: FileMetadata) -> FileView {
    FileView {
        path: entry.path,
        name: entry.name,
        size: metadata.size,
        time: metadata.modified,
        hash: Seq::empty(),
    }
}

/// Whether the walk enters a directory that it meets at the given depth.
pub open spec fn descends(settings: Settings, depth: u8, name: Seq<char>) -> bool {
    depth > 1 && (settings.search_hidden_folders || !is_hidden_name(name))
}

/// The walk after one entry of a directory listed at `depth`.
///
/// A directory is entered later, one level deeper, unless the depth is used
/// up or the directory is hidden and such are not searched. A file is kept
/// if pattern and settings accept it: with the found ones, or, where digests
/// are asked for, with those that wait for one. What cannot be read leaves a
/// warning. Anything else is passed over.
pub open spec fn visit_entry(walk: WalkView, depth: u8, entry: EntryView) -> WalkView {
    match entry.kind {
        EntryKind::Directory => if descends(walk.settings, depth, entry.name) {
            WalkView {
                pending: walk.pending.push(
                    PendingView { path: entry.path, depth: (depth - 1) as u8 },
                ),
                ..walk
            }
        } else {
            walk
        },
        EntryKind::File { metadata } => if pattern_accepts(walk.settings, entry.name, entry.path)
            && matches(metadata, walk.settings, walk.now) {
            if walk.settings.save_hash {
                WalkView { unhashed: walk.unhashed.push(found_record(entry, metadata)), ..walk }
            } else {
                WalkView { found: walk.found.push(found_record(entry, metadata)), ..walk }
            }
        } else {
            walk
        },
        EntryKind::Other => walk,
        EntryKind::Unreadable => WalkView { warnings: walk.warnings.push(entry.path), ..walk },
    }
}

/// The walk after the entries of a directory listed at `depth`, one after
/// the other.
pub open spec fn visit(walk: WalkView, depth: u8, entries: Seq<EntryView>) -> WalkView
    decreases entries.len(),
{
    if entries.len() == 0 {
        walk
    } else {
        visit_entry(visit(walk, depth, entries.drop_last()), depth, entries.last())
    }
}

/// At depth 1 or less no directory is entered: the listing of a directory
/// at that depth adds none to those that wait, whatever it holds.
pub proof fn lemma_depth_floor(walk: WalkView, depth: u8, entries: Seq<EntryView>)
    requires
        depth <= 1,
    ensures
        visit(walk, depth, entries).pending == walk.pending,
        visit(walk, depth, entries).settings == walk.settings,
        visit(walk, depth, entries).now == walk.now,
    decreases entries.len(),
{
    if entries.len() > 0 {
        lemma_depth_floor(walk, depth, entries.drop_last());
    }
}

/// The directories a search starts with: each root, at the full depth.
pub open spec fn roots(paths: Seq<Seq<char>>, depth: u8) -> Seq<PendingView> {
    Seq::new(paths.len(), |i: int| PendingView { path: paths[i], depth })
}

/// Starts a search below `paths`, `search_depth` levels deep: at depth 1
/// only the files directly in a root are found. Nothing has been read yet:
/// the walk that is returned says which directories to list.
pub fn get_files(
    paths: &Vec<String>,
    search_depth: u8,
    settings: Settings,
    now: u64,
) -> (walk: Walk)
    ensures
        walk@ == (WalkView {
            settings,
            now,
            pending: roots(text_views(paths@), search_depth),
            unhashed: Seq::empty(),
            found: Seq::empty(),
            warnings: Seq::empty(),
        }),
{
    let mut pending: Vec<PendingDirectory> = Vec::new();
    let mut i: usize = 0;
    while i < paths.len()
        invariant
            i <= paths.len(),
            pending@.len() == i,
            forall|j: int|
                0 <= j < i ==> (#[trigger] pending@[j])@ == (PendingView {
                    path: paths@[j]@,
                    depth: search_depth,
                }),
        decreases paths.len() - i,
    {
        pending.push(PendingDirectory { path: paths[i].clone(), depth: search_depth });
        i += 1;
    }
    assert(pending_views(pending@) =~= roots(text_views(paths@), search_depth));
    let walk = Walk {
        settings,
        now,
        pending,
        unhashed: Vec::new(),
        found: Vec::new(),
        warnings: Vec::new(),
    };
    assert(walk@.unhashed =~= Seq::empty());
    assert(walk@.warnings =~= Seq::empty());
    walk
}

impl View for Walk {
    type V = WalkView;

    closed spec fn view(&self) -> WalkView {
        WalkView {
            settings: self.settings,
            now: self.now,
            pending: pending_views(self.pending@),
            unhashed: file_views(self.unhashed@),
            found: file_views(self.found@),
            warnings: text_views(self.warnings@),
        }
    }
}

impl Walk {
    /// The settings of this search.
    pub fn settings(&self) -> (settings: &Settings)
        ensures
            *settings == self@.settings,
    {
        &self.settings
    }

    /// Whether nothing is left to list or to hash.
    pub fn is_finished(&self) -> (finished: bool)
        ensures
            finished == (self@.pending.len() == 0 && self@.unhashed.len() == 0),
    {
        self.pending.len() == 0 && self.unhashed.len() == 0
    }

    /// Hands out the directories that are to be listed next, at most `limit`
    /// of them, the one that was added last first. The caller may list them
    /// side by side, and answers each with `search_in_path` or
    /// `directory_unreadable`.
    pub fn next_directories(&mut self, limit: usize) -> (batch: Vec<PendingDirectory>)
        ensures
            batch@.len() == if limit <= old(self)@.pending.len() {
                limit as nat
            } else {
                old(self)@.pending.len()
            },
            forall|i: int|
                0 <= i < batch@.len() ==> (#[trigger] batch@[i])@ == old(self)@.pending[old(
                    self,
                )@.pending.len() - 1 - i],
            final(self)@ == (WalkView {
                pending: old(self)@.pending.take(old(self)@.pending.len() - batch@.len()),
                ..old(self)@
            }),
    {
        let mut batch: Vec<PendingDirectory> = Vec::new();
        while batch.len() < limit && self.pending.len() > 0
            invariant
                batch@.len() <= limit,
                batch@.len() + self.pending@.len() == old(self).pending@.len(),
                self.pending@ == old(self).pending@.take(self.pending@.len() as int),
                forall|i: int|
                    0 <= i < batch@.len() ==> #[trigger] batch@[i] == old(self).pending@[old(
                        self,
                    ).pending@.len() - 1 - i],
                self.settings == old(self).settings,
                self.now == old(self).now,
                self.unhashed == old(self).unhashed,
                self.found == old(self).found,
                self.warnings == old(self).warnings,
            decreases self.pending@.len(),
        {
            let directory = self.pending.pop().unwrap();
            batch.push(directory);
        }
        assert(self@.pending =~= old(self)@.pending.take(
            old(self)@.pending.len() - batch@.len(),
        ));
        batch
    }

    /// Takes in the listing of a directory that was handed out, entry by
    /// entry.
    pub fn search_in_path(&mut self, directory: &PendingDirectory, entries: &Vec<DirectoryEntry>)
        ensures
            final(self)@ == visit(old(self)@, directory.depth, entry_views(entries@)),
    {
        let ghost views = entry_views(entries@);
        let mut i: usize = 0;
        while i < entries.len()
            invariant
                i <= entries.len(),
                views == entry_views(entries@),
                self@ == visit(old(self)@, directory.depth, views.take(i as int)),
            decreases entries.len() - i,
        {
            let ghost before = self@;
            let entry = &entries[i];
            proof {
                assert(views.take(i + 1).drop_last() =~= views.take(i as int));
            }
            match entry.kind {
                EntryKind::Directory => {
                    if directory.depth > 1 && (self.settings.search_hidden_folders || !is_hidden(
                        entry.name.as_str(),
                    )) {
                        self.pending.push(
                            PendingDirectory {
                                path: entry.path.clone(),
                                depth: directory.depth - 1,
                            },
                        );
                        assert(self@.pending =~= before.pending.push(
                            PendingView { path: entry@.path, depth: (directory.depth - 1) as u8 },
                        ));
                    }
                },
                EntryKind::File { metadata } => {
                    if pattern_test(&self.settings, entry.name.as_str(), entry.path.as_str())
                        && filter(&metadata, &self.settings, self.now) {
                        let record = SingleFileInformations {
                            path: entry.path.clone(),
                            name: entry.name.clone(),
                            size: metadata.size,
                            time: metadata.modified,
                            hash: String::new(),
                        };
                        if self.settings.save_hash {
                            self.unhashed.push(record);
                            assert(self@.unhashed =~= before.unhashed.push(
                                found_record(entry@, metadata),
                            ));
                        } else {
                            self.found.push(record);
                            assert(self@.found =~= before.found.push(
                                found_record(entry@, metadata),
                            ));
                        }
                    }
                },
                EntryKind::Other => {},
                EntryKind::Unreadable => {
                    self.warnings.push(entry.path.clone());
                    assert(self@.warnings =~= before.warnings.push(entry@.path));
                },
            }
            i += 1;
        }
        assert(views.take(entries@.len() as int) =~= views);
    }

    /// Notes that a directory that was handed out could not be listed: it is
    /// passed over, and the search goes on.
    pub fn directory_unreadable(&mut self, directory: &PendingDirectory)
        ensures
            final(self)@ == (WalkView {
                warnings: old(self)@.warnings.push(directory.path@),
                ..old(self)@
            }),
    {
        self.warnings.push(directory.path.clone());
        assert(self@.warnings =~= old(self)@.warnings.push(directory.path@));
    }

    /// Hands out the file whose content is to be hashed next, if any waits.
    /// The caller answers with `add_hashed` or `file_unreadable`.
    pub fn next_unhashed(&mut self) -> (file: Option<SingleFileInformations>)
        ensures
            old(self)@.unhashed.len() == 0 ==> file is None && final(self)@ == old(self)@,
            old(self)@.unhashed.len() > 0 ==> file is Some && file->0@ == old(
                self,
            )@.unhashed.last() && final(self)@ == (WalkView {
                unhashed: old(self)@.unhashed.drop_last(),
                ..old(self)@
            }),
    {
        let file = self.unhashed.pop();
        assert(self@.unhashed =~= if old(self)@.unhashed.len() > 0 {
            old(self)@.unhashed.drop_last()
        } else {
            old(self)@.unhashed
        });
        file
    }

    /// Adds a file that was handed out for hashing to the files found, with
    /// its digest.
    pub fn add_hashed(&mut self, file: SingleFileInformations, digest: String)
        ensures
            final(self)@ == (WalkView {
                found: old(self)@.found.push(FileView { hash: digest@, ..file@ }),
                ..old(self)@
            }),
    {
        let SingleFileInformations { path, name, size, time, hash: _ } = file;
        self.found.push(SingleFileInformations { path, name, size, time, hash: digest });
        assert(self@.found =~= old(self)@.found.push(FileView { hash: digest@, ..file@ }));
    }

    /// Notes that a file that was handed out for hashing could not be read:
    /// it is left out of the files found, and the search goes on.
    pub fn file_unreadable(&mut self, file: &SingleFileInformations)
        ensures
            final(self)@ == (WalkView {
                warnings: old(self)@.warnings.push(file.path@),
                ..old(self)@
            }),
    {
        self.warnings.push(file.path.clone());
        assert(self@.warnings =~= old(self)@.warnings.push(file.path@));
    }

    /// Gives up what is left of the search: nothing more is handed out, and
    /// what was found stays. The caller may do so between any two
    /// directories or files.
    pub fn cancel(&mut self)
        ensures
            final(self)@ == (WalkView {
                pending: Seq::empty(),
                unhashed: Seq::empty(),
                ..old(self)@
            }),
    {
        self.pending.clear();
        self.unhashed.clear();
        assert(self@.pending =~= Seq::empty());
        assert(self@.unhashed =~= Seq::empty());
    }

    /// The paths that were passed over so far because they could not be read.
    pub fn warnings(&self) -> (warnings: &Vec<String>)
        ensures
            text_views(warnings@) == self@.warnings,
    {
        &self.warnings
    }

    /// Ends the search and gives the files found, in no particular order.
    pub fn into_files(self) -> (files: Vec<SingleFileInformations>)
        ensures
            file_views(files@) == self@.found,
    {
        self.found
    }
}

} // verus!
