//! Pairing of video files with companion audio tracks: the pairing store, the
//! catalog derived from it, the discovery of unpaired files and the decisions
//! of the playback controller.

pub mod avmod;
pub mod catalog;
pub mod config;
pub mod document;
pub mod media_player;
pub mod paths;
pub mod store;
pub mod text;
pub mod views;

use crate::avmod::Sorting;
use crate::document::SaveError;
use crate::views::menu::MenuOptions;
use crate::views::mv_selector::{FilterTypes, MVSelector};
use vstd::prelude::*;

verus! {

/// What the caller does for an option of the menu.
#[derive(Debug, Clone, Copy, PartialEq, Eq, Structural)]
pub enum RunStep {
    /// Leave the program.
    Exit,
    /// Show the main menu and go on with what is selected there.
    ShowMainMenu,
    /// Show the catalog screen and go on with what is selected there.
    ShowSelector,
    /// Run an update session, then `finish_update`, and go on with the
    /// catalog screen.
    Update,
    /// Play a random video, and go on with the screen that it names.
    PlayRandom,
    /// Let a search subset be picked and set it, and go on with the catalog
    /// screen.
    PickSearchFilter,
    /// The option was carried out here: go on with this one.
    Goto(MenuOptions),
}

/// The order that an option of the menu asks for.
pub open spec fn sorting_of(option: MenuOptions) -> Option<Sorting> {
    match option {
        MenuOptions::SortAsc => Some(Sorting::Ascending),
        MenuOptions::SortDesc => Some(Sorting::Descending),
        MenuOptions::SortMtime => Some(Sorting::Mtime),
        _ => None,
    }
}

/// The filter that an option of the menu toggles.
pub open spec fn filter_of(option: MenuOptions) -> Option<FilterTypes> {
    match option {
        MenuOptions::ToggleLive => Some(FilterTypes::Live),
        MenuOptions::ToggleMVs => Some(FilterTypes::MVs),
        _ => None,
    }
}

/// What the caller does for `option`, where the search subset is set or not.
pub open spec fn step_of(option: MenuOptions, subset_set: bool) -> RunStep {
    match option {
        MenuOptions::Quit => RunStep::Exit,
        MenuOptions::MainMenu => RunStep::ShowMainMenu,
        MenuOptions::MVSelector => RunStep::ShowSelector,
        MenuOptions::Update => RunStep::Update,
        MenuOptions::Random => RunStep::PlayRandom,
        MenuOptions::SearchFilter => if subset_set {
            RunStep::Goto(MenuOptions::MVSelector)
        } else {
            RunStep::PickSearchFilter
        },
        _ => RunStep::Goto(MenuOptions::MVSelector),
    }
}

/// Carries out the option of the menu as far as it needs nothing from
/// outside, and says what the caller does. An order is set, and a new order
/// drops the cached catalog; a filter is toggled; the search subset is taken
/// off where one is set; the played list is cleared. Every other option
/// leaves the screen as it is.
pub fn advance(selector: &mut MVSelector, option: MenuOptions) -> (r: RunStep)
    ensures
        r == step_of(option, old(selector).avd.search_filtered_list is Some),
        final(selector).view_type == old(selector).view_type,
        final(selector).header == old(selector).header,
        final(selector).avd.data_file == old(selector).avd.data_file,
        final(selector).avd.video_dir == old(selector).avd.video_dir,
        final(selector).avd.audio_dir == old(selector).avd.audio_dir,
        final(selector).avd.audio_video == old(selector).avd.audio_video,
        final(selector).avd.player == old(selector).avd.player,
        match sorting_of(option) {
            Some(sorting) => final(selector).avd.sorting == sorting && (sorting == old(selector).avd.sorting ==> final(selector).avd.video_list == old(selector).avd.video_list) && (
            sorting != old(selector).avd.sorting ==> final(selector).avd.video_list is None),
            None => final(selector).avd.sorting == old(selector).avd.sorting && final(selector).avd.video_list == old(selector).avd.video_list,
        },
        match filter_of(option) {
            Some(filter) => final(selector).filters@ == if old(selector).filters@.contains(filter) {
                old(selector).filters@.filter(|f: FilterTypes| f != filter)
            } else {
                old(selector).filters@.push(filter)
            },
            None => final(selector).filters == old(selector).filters,
        },
        if option == MenuOptions::SearchFilter {
            final(selector).avd.search_filtered_list is None
        } else {
            final(selector).avd.search_filtered_list == old(selector).avd.search_filtered_list
        },
        if option == MenuOptions::ClearPlayed {
            final(selector).played_list@.len() == 0
        } else {
            final(selector).played_list == old(selector).played_list
        },
{
    match option {
        MenuOptions::Quit => RunStep::Exit,
        MenuOptions::MainMenu => RunStep::ShowMainMenu,
        MenuOptions::MVSelector => RunStep::ShowSelector,
        MenuOptions::ToggleLive => RunStep::Goto(selector.toggle_filter(FilterTypes::Live)),
        MenuOptions::ToggleMVs => RunStep::Goto(selector.toggle_filter(FilterTypes::MVs)),
        MenuOptions::SortAsc => {
            selector.avd.set_sorting(Sorting::Ascending);
            RunStep::Goto(MenuOptions::MVSelector)
        },
        MenuOptions::SortDesc => {
            selector.avd.set_sorting(Sorting::Descending);
            RunStep::Goto(MenuOptions::MVSelector)
        },
        MenuOptions::SortMtime => {
            selector.avd.set_sorting(Sorting::Mtime);
            RunStep::Goto(MenuOptions::MVSelector)
        },
        MenuOptions::Update => RunStep::Update,
        MenuOptions::Random => RunStep::PlayRandom,
        MenuOptions::SearchFilter => {
            if selector.avd.search_filtered_list.is_some() {
                selector.set_search_filters(None);
                RunStep::Goto(MenuOptions::MVSelector)
            } else {
                RunStep::PickSearchFilter
            }
        },
        MenuOptions::ClearPlayed => {
            selector.played_list = Vec::new();
            RunStep::Goto(MenuOptions::MVSelector)
        },
    }
}

/// After an update session: the cached catalog is dropped, and the document
/// of the store is given for the caller to write.
pub fn finish_update(selector: &mut MVSelector) -> (r: Result<String, SaveError>)
    ensures
        final(selector).avd.video_list is None,
        final(selector).view_type == old(selector).view_type,
        final(selector).header == old(selector).header,
        final(selector).filters == old(selector).filters,
        final(selector).played_list == old(selector).played_list,
        final(selector).avd.same_but_cache(&old(selector).avd),
        r matches Ok(text) && (crate::document::json_object(text@) matches Some(doc)
            && crate::avmod::documented(
            old(selector).avd.audio_video@,
            old(selector).avd.video_dir@,
            old(selector).avd.audio_dir@,
            doc,
        ) && text@ == crate::document::json_pretty(doc)),
{
    selector.avd.invalidate();
    selector.avd.save_data()
}

} // verus!
