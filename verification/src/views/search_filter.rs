//! The choice of a search subset.

use crate::text::{copy_texts, split_on, split_text};
use crate::views::fzf_selector::FzfSelector;
use vstd::prelude::*;

verus! {

/// The line that leads back from a selection.
pub open spec fn back_entry() -> Seq<char> {
    "[[Back]]"@
}

/// The screen on which the videos of a search subset are picked.
pub struct SearchFilters {
    pub video_list: Vec<String>,
}

impl SearchFilters {
    /// The screen over the videos of `video_list`.
    pub fn new(video_list: Vec<String>) -> (r: Self)
        ensures
            r.video_list == video_list,
    {
        SearchFilters { video_list }
    }

    /// The request to the selector: the videos, then the way back.
    pub fn selector(&self) -> (r: FzfSelector)
        ensures
            r.inputs() == self.video_list.deep_view(),
            r.other_options() == seq![back_entry()],
            r.height() == "80%"@,
    {
        let mut options: Vec<String> = Vec::new();
        options.push("[[Back]]".to_owned());
        assert(options.deep_view() =~= seq![back_entry()]);
        FzfSelector::new(Some(copy_texts(&self.video_list)), Some(options), None)
    }

    /// The videos that were picked on the screen, given what was selected:
    /// its lines.
    pub fn start(&mut self, selected: &str) -> (r: Vec<String>)
        ensures
            *final(self) == *old(self),
            r.deep_view() == split_on(selected@, '\n'),
    {
        split_text(selected, '\n')
    }
}

} // verus!
