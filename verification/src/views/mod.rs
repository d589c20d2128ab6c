//! The screens: what each of them offers and what it makes of a selection.

pub mod fzf_selector;
pub mod menu;
pub mod mv_selector;
pub mod search_filter;
pub mod updater;

use crate::text::{join_lines, lines_of};
use vstd::prelude::*;
use vstd::string::StringExecFns;

verus! {

/// A request to the selector as a small menu: the candidate lines, the
/// options that follow them in square brackets, and the height.
pub struct FzfMenu {
    height: String,
    inputs: Vec<String>,
    other_options: Vec<String>,
}

/// An option as it is shown: in square brackets.
pub open spec fn bracketed(option: Seq<char>) -> Seq<char> {
    "["@ + option + "]"@
}

/// The arguments with which the selector is started for a menu.
pub open spec fn menu_args(height: Seq<char>) -> Seq<Seq<char>> {
    seq!["--height"@, height, "--reverse"@]
}

impl FzfMenu {
    /// The candidate lines.
    pub closed spec fn inputs(&self) -> Seq<Seq<char>> {
        self.inputs.deep_view()
    }

    /// The options.
    pub closed spec fn other_options(&self) -> Seq<Seq<char>> {
        self.other_options.deep_view()
    }

    /// The height of the selector.
    pub closed spec fn height(&self) -> Seq<char> {
        self.height@
    }

    /// A menu with the given lines; without options there are none, and
    /// without a height it is 20%.
    pub fn new(inputs: Vec<String>, other_options: Option<Vec<String>>, height: Option<String>) -> (r:
        FzfMenu)
        ensures
            r.inputs() == inputs.deep_view(),
            r.other_options() == match other_options {
                Some(list) => list.deep_view(),
                None => Seq::<Seq<char>>::empty(),
            },
            r.height() == match height {
                Some(h) => h@,
                None => "20%"@,
            },
    {
        let other_options = match other_options {
            Some(list) => list,
            None => Vec::new(),
        };
        let height = match height {
            Some(h) => h,
            None => "20%".to_owned(),
        };
        let r = FzfMenu { height, inputs, other_options };
        proof {
            if other_options@.len() == 0 {
                assert(r.other_options() =~= Seq::<Seq<char>>::empty());
            }
        }
        r
    }

    /// The text that is written to the selector: the candidate lines, then the
    /// options in square brackets, each on a line of its own.
    pub fn fzf_input(&self) -> (r: String)
        ensures
            r@ == lines_of(self.inputs()) + lines_of(
                self.other_options().map_values(|option: Seq<char>| bracketed(option)),
            ),
    {
        let mut shown: Vec<String> = Vec::new();
        let mut i: usize = 0;
        while i < self.other_options.len()
            invariant
                i <= self.other_options.len(),
                shown.len() == i,
                forall|j: int| 0 <= j < i ==> shown@[j]@ == bracketed(self.other_options@[j]@),
            decreases self.other_options.len() - i,
        {
            shown.push("[".to_owned().concat(self.other_options[i].as_str()).concat("]"));
            i = i + 1;
        }
        assert(shown.deep_view() =~= self.other_options().map_values(
            |option: Seq<char>| bracketed(option),
        ));
        let options = join_lines(&shown);
        join_lines(&self.inputs).concat(options.as_str())
    }

    /// The arguments with which the selector is started.
    pub fn fzf_args(&self) -> (r: Vec<String>)
        ensures
            r.deep_view() == menu_args(self.height()),
    {
        let mut r: Vec<String> = Vec::new();
        r.push("--height".to_owned());
        r.push(self.height.clone());
        r.push("--reverse".to_owned());
        assert(r.deep_view() =~= menu_args(self.height()));
        r
    }
}

} // verus!
