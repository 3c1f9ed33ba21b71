//! The operations of a search in one place, for the caller that wants
//! nothing else of the library.

use vstd::prelude::*;
use crate::error::ConfigError;
use crate::filter::SearchFilter;
use crate::search_file::order::{sort_files, sorted_files};
use crate::search_file::settings::Settings;
use crate::search_file::transfer::{
    action_views,
    copy_files,
    copy_plan,
    delete_files,
    delete_plan,
    mapping_files,
    mapping_plan,
    move_files,
    move_plan,
    FileAction,
};
use crate::search_file::unique::{deduplicated, unique_files};
use crate::search_file::{file_views, get_files, roots, SingleFileInformations, Walk, WalkView};
use crate::text::text_views;

verus! {

/// The operations of a search.
pub struct SearchHelper;

impl SearchHelper {
    /// The settings of a search with the filter, or what is wrong with it.
    pub fn apply_filter_settings(filter: &SearchFilter) -> (r: Result<Settings, ConfigError>)
        ensures
            r is Ok <==> filter.is_valid(),
            r matches Ok(settings) ==> filter.resolves_to(settings),
            r matches Err(error) ==> filter.refused_with(error),
    {
        filter.apply_to_settings()
    }

    /// Starts a search below `paths`, `search_depth` levels deep, with the
    /// filter, at the time `now`. A filter that is not valid is reported
    /// and no search is started.
    pub fn perform_search(
        paths: &Vec<String>,
        search_depth: u8,
        filter: &SearchFilter,
        now: u64,
    ) -> (r: Result<Walk, ConfigError>)
        ensures
            r is Ok <==> filter.is_valid(),
            r matches Ok(walk) ==> filter.resolves_to(walk@.settings) && walk@ == (WalkView {
                settings: walk@.settings,
                now,
                pending: roots(text_views(paths@), search_depth),
                unhashed: Seq::empty(),
                found: Seq::empty(),
                warnings: Seq::empty(),
            }),
            r matches Err(error) ==> filter.refused_with(error),
    {
        match filter.apply_to_settings() {
            Ok(settings) => Ok(get_files(paths, search_depth, settings, now)),
            Err(error) => Err(error),
        }
    }

    /// Leaves of the files with the same content one each.
    pub fn remove_duplicates(files: &mut Vec<SingleFileInformations>)
        ensures
            file_views(final(files)@) == deduplicated(file_views(old(files)@)),
    {
        unique_files(files)
    }

    /// Sorts the files by `name`, `size`, `time` or `path`.
    pub fn sort_results(files: &mut Vec<SingleFileInformations>, sort_type: &str, reversed: bool)
        ensures
            file_views(final(files)@) == sorted_files(
                file_views(old(files)@),
                sort_type@,
                reversed,
            ),
    {
        sort_files(files, String::from_str(sort_type), reversed)
    }

    /// Plans the copy of the files into `destination`.
    pub fn copy_files_to(
        files: &Vec<SingleFileInformations>,
        destination: &str,
    ) -> (plan: Vec<FileAction>)
        ensures
            action_views(plan@) == copy_plan(file_views(files@), destination@),
    {
        copy_files(files, destination)
    }

    /// Plans the move of the files into `destination`.
    pub fn move_files_to(
        files: &Vec<SingleFileInformations>,
        destination: &str,
    ) -> (plan: Vec<FileAction>)
        ensures
            action_views(plan@) == move_plan(file_views(files@), destination@),
    {
        move_files(files, destination)
    }

    /// Plans the removal of the files to the trash.
    pub fn delete_files(files: &Vec<SingleFileInformations>) -> (plan: Vec<FileAction>)
        ensures
            action_views(plan@) == delete_plan(file_views(files@)),
    {
        delete_files(files)
    }

    /// Plans the copy of the files below `source` to the same places below
    /// `destination`.
    pub fn map_files(
        files: &Vec<SingleFileInformations>,
        source: &str,
        destination: &str,
    ) -> (plan: Vec<FileAction>)
        ensures
            action_views(plan@) == mapping_plan(file_views(files@), source@, destination@),
    {
        mapping_files(files, source, destination)
    }
}

} // verus!
