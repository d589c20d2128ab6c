//! The request to the external selector and the reading of its answer.

use crate::text::{join_lines, lines_of, trim, trimmed};
use vstd::prelude::*;
use vstd::string::StringExecFns;

verus! {

/// Whether the selector lets one line be picked or several.
#[derive(Debug, Clone, Copy, PartialEq, Eq, Structural)]
pub enum SelectType {
    Single,
    Multi,
}

/// A request to the selector: the candidate lines, the control options that
/// follow them, and the height of the selector on the screen.
pub struct FzfSelector {
    inputs: Vec<String>,
    other_options: Vec<String>,
    height: String,
}

/// The arguments with which the selector is started.
pub open spec fn selector_args(height: Seq<char>, select_type: SelectType) -> Seq<Seq<char>> {
    let single = seq!["-i"@, "--height"@, height, "--reverse"@, "--tiebreak=begin"@];
    match select_type {
        SelectType::Single => single,
        SelectType::Multi => single.push("-m"@),
    }
}

impl FzfSelector {
    /// The candidate lines.
    pub closed spec fn inputs(&self) -> Seq<Seq<char>> {
        self.inputs.deep_view()
    }

    /// The control options.
    pub closed spec fn other_options(&self) -> Seq<Seq<char>> {
        self.other_options.deep_view()
    }

    /// The height of the selector.
    pub closed spec fn height(&self) -> Seq<char> {
        self.height@
    }

    /// A request with the given lines; without lines there are none, and
    /// without a height it is 80%.
    pub fn new(
        inputs: Option<Vec<String>>,
        other_options: Option<Vec<String>>,
        height: Option<String>,
    ) -> (r: FzfSelector)
        ensures
            r.inputs() == match inputs {
                Some(list) => list.deep_view(),
                None => Seq::<Seq<char>>::empty(),
            },
            r.other_options() == match other_options {
                Some(list) => list.deep_view(),
                None => Seq::<Seq<char>>::empty(),
            },
            r.height() == match height {
                Some(h) => h@,
                None => "80%"@,
            },
    {
        let inputs = match inputs {
            Some(list) => list,
            None => Vec::new(),
        };
        let other_options = match other_options {
            Some(list) => list,
            None => Vec::new(),
        };
        let height = match height {
            Some(h) => h,
            None => "80%".to_owned(),
        };
        let r = FzfSelector { inputs, other_options, height };
        assert(r.inputs.deep_view() =~= r.inputs());
        proof {
            if inputs@.len() == 0 {
                assert(r.inputs() =~= Seq::<Seq<char>>::empty());
            }
            if other_options@.len() == 0 {
                assert(r.other_options() =~= Seq::<Seq<char>>::empty());
            }
        }
        r
    }

    /// The text that is written to the selector: the candidate lines, then the
    /// control options, each on a line of its own.
    pub fn fzf_input(&self) -> (r: String)
        ensures
            r@ == lines_of(self.inputs()) + lines_of(self.other_options()),
    {
        let options = join_lines(&self.other_options);
        join_lines(&self.inputs).concat(options.as_str())
    }

    /// The arguments with which the selector is started.
    pub fn fzf_args(&self, select_type: SelectType) -> (r: Vec<String>)
        ensures
            r.deep_view() == selector_args(self.height(), select_type),
    {
        let mut r: Vec<String> = Vec::new();
        r.push("-i".to_owned());
        r.push("--height".to_owned());
        r.push(self.height.clone());
        r.push("--reverse".to_owned());
        r.push("--tiebreak=begin".to_owned());
        match select_type {
            SelectType::Single => {},
            SelectType::Multi => {
                r.push("-m".to_owned());
            },
        }
        assert(r.deep_view() =~= selector_args(self.height(), select_type));
        r
    }

    /// What was selected, given what the selector wrote: its output without
    /// the white space around it.
    pub fn selection(output: &str) -> (r: String)
        ensures
            r@ == trimmed(output@),
    {
        trim(output)
    }
}

} // verus!
