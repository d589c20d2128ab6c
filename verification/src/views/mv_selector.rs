//! The catalog screen: the filtered catalog, the random selection, and what a
//! selection on the screen leads to.

use crate::avmod::{AudioVideoData, CatalogError};
use crate::catalog::{category_of, classify, separator, Category};
use crate::media_player::PlayerAction;
use crate::text::{
    decimal, decimal_of, lemma_filter_take_none, lemma_filter_take_step, listed, occurs_in,
};
use crate::views::menu::{all_options, entry_of, label_of, menu_of, selects, MenuOptions};
use vstd::prelude::*;
use vstd::string::StringExecFns;

verus! {

/// The filters of the catalog. Each one hides a class: with `MVs` set the
/// studio productions are hidden and only the recordings of performances are
/// listed; with `Live` set the recordings of performances are hidden and only
/// the studio productions are listed.
#[derive(Debug, Clone, Copy, PartialEq, Eq, Structural)]
pub enum FilterTypes {
    MVs,
    Live,
}

impl FilterTypes {
    /// The name of the filter.
    pub open spec fn label(self) -> Seq<char> {
        match self {
            FilterTypes::MVs => "MVs"@,
            FilterTypes::Live => "Live"@,
        }
    }

    /// The name of the filter.
    pub fn to_string(&self) -> (r: String)
        ensures
            r@ == self.label(),
    {
        match self {
            FilterTypes::MVs => "MVs".to_owned(),
            FilterTypes::Live => "Live".to_owned(),
        }
    }
}

/// The identity passes the filters: each filter that is set lets the other
/// class through only. With no filter set every identity passes; with one
/// set, an identity of neither class does not pass; with both set, none does.
pub open spec fn passes(filters: Seq<FilterTypes>, identity: Seq<char>) -> bool {
    &&& filters.contains(FilterTypes::MVs) ==> category_of(identity) == Category::Live
    &&& filters.contains(FilterTypes::Live) ==> category_of(identity) == Category::Studio
}

/// The search subset as plain text.
pub open spec fn subset_of(subset: Option<Vec<String>>) -> Option<Seq<Seq<char>>> {
    match subset {
        Some(list) => Some(list.deep_view()),
        None => None,
    }
}

/// The identity is in the search subset, where there is one.
pub open spec fn in_subset(subset: Option<Seq<Seq<char>>>, identity: Seq<char>) -> bool {
    match subset {
        Some(list) => list.contains(identity),
        None => true,
    }
}

/// The identities of `list` that pass the filters and are in the search
/// subset, in the order of `list`.
pub open spec fn candidates_of(
    list: Seq<Seq<char>>,
    filters: Seq<FilterTypes>,
    subset: Option<Seq<Seq<char>>>,
) -> Seq<Seq<char>> {
    list.filter(|identity: Seq<char>| passes(filters, identity) && in_subset(subset, identity))
}

/// The candidates that were not played in this round.
pub open spec fn remaining(candidates: Seq<Seq<char>>, played: Seq<Seq<char>>) -> Seq<Seq<char>> {
    candidates.filter(|identity: Seq<char>| !played.contains(identity))
}

/// The header of the screen before anything was played.
pub open spec fn plain_header() -> Seq<char> {
    "Search for an MV or search quit to exit"@
}

/// The header after `video` was selected and played.
pub open spec fn playing_header(video: Seq<char>) -> Seq<char> {
    "Playing "@ + video + "\n\nSearch for an MV or search quit to exit"@
}

/// The header after `video` was drawn and played as number `count` of the
/// round.
pub open spec fn random_header(video: Seq<char>, count: nat) -> Seq<char> {
    "Playing "@ + video + "\nPlayed "@ + decimal_of(count)
        + " videos\n\nSearch for an MV or search quit to exit. "@
}

/// The header after the round was found exhausted.
pub open spec fn exhausted_header() -> Seq<char> {
    "No more videos to play\n\nClearing played list"@
}

/// An identity without the separator passes no filter: as soon as a filter is
/// set, it is left out.
pub proof fn lemma_unseparated_excluded(filters: Seq<FilterTypes>, identity: Seq<char>)
    requires
        !occurs_in(identity, separator()),
        filters.len() > 0,
    ensures
        category_of(identity) == Category::Neither,
        !passes(filters, identity),
{
    let first = filters[0];
    assert(filters.contains(first));
}

/// A round starts with every candidate: with nothing played, all of them
/// remain.
pub proof fn lemma_round_starts(candidates: Seq<Seq<char>>)
    ensures
        remaining(candidates, Seq::<Seq<char>>::empty()) == candidates,
    decreases candidates.len(),
{
    reveal(Seq::filter);
    let played = Seq::<Seq<char>>::empty();
    if candidates.len() > 0 {
        lemma_round_starts(candidates.drop_last());
        assert(candidates.drop_last().push(candidates.last()) =~= candidates);
    }
}

/// A round ends when every candidate was played: then none remains.
pub proof fn lemma_round_ends(candidates: Seq<Seq<char>>, played: Seq<Seq<char>>)
    requires
        forall|i: int| 0 <= i < candidates.len() ==> played.contains(#[trigger] candidates[i]),
    ensures
        remaining(candidates, played).len() == 0,
    decreases candidates.len(),
{
    reveal(Seq::filter);
    if candidates.len() > 0 {
        let rest = candidates.drop_last();
        assert forall|i: int| 0 <= i < rest.len() implies played.contains(#[trigger] rest[i]) by {
            assert(rest[i] == candidates[i]);
        }
        lemma_round_ends(rest, played);
        assert(played.contains(candidates[candidates.len() - 1]));
    }
}

/// A draw takes exactly one candidate out of the round: what is drawn was a
/// candidate and was not played before, and after it one candidate fewer
/// remains. So a round over `n` different candidates gives `n` different
/// videos and is then exhausted.
pub proof fn lemma_draw_shrinks(
    candidates: Seq<Seq<char>>,
    played: Seq<Seq<char>>,
    pick: Seq<char>,
)
    requires
        candidates.no_duplicates(),
        remaining(candidates, played).contains(pick),
    ensures
        candidates.contains(pick),
        !played.contains(pick),
        !remaining(candidates, played.push(pick)).contains(pick),
        remaining(candidates, played.push(pick)).len() == remaining(candidates, played).len() - 1,
{
    lemma_remaining_members(candidates, played, pick);
    lemma_remaining_members(candidates, played.push(pick), pick);
    assert(played.push(pick)[played.len() as int] == pick);
    lemma_remaining_count(candidates, played, pick);
}

/// What remains is what is a candidate and was not played.
proof fn lemma_remaining_members(
    candidates: Seq<Seq<char>>,
    played: Seq<Seq<char>>,
    identity: Seq<char>,
)
    ensures
        remaining(candidates, played).contains(identity) <==> candidates.contains(identity)
            && !played.contains(identity),
    decreases candidates.len(),
{
    reveal(Seq::filter);
    if candidates.len() > 0 {
        let rest = candidates.drop_last();
        let last = candidates.last();
        lemma_remaining_members(rest, played, identity);
        let before = remaining(rest, played);
        if candidates.contains(identity) {
            let i = choose|i: int| 0 <= i < candidates.len() && candidates[i] == identity;
            if i < rest.len() {
                assert(rest[i] == identity);
            }
        }
        if rest.contains(identity) {
            let i = choose|i: int| 0 <= i < rest.len() && rest[i] == identity;
            assert(candidates[i] == identity);
        }
        assert(candidates[candidates.len() - 1] == last);
        if !played.contains(last) {
            let after = before.push(last);
            assert(after[before.len() as int] == last);
            if before.contains(identity) {
                let i = choose|i: int| 0 <= i < before.len() && before[i] == identity;
                assert(after[i] == identity);
            }
            if after.contains(identity) {
                let i = choose|i: int| 0 <= i < after.len() && after[i] == identity;
                if i < before.len() {
                    assert(before[i] == identity);
                }
            }
        }
    }
}

/// Playing one video that remains leaves one fewer.
proof fn lemma_remaining_count(
    candidates: Seq<Seq<char>>,
    played: Seq<Seq<char>>,
    pick: Seq<char>,
)
    requires
        candidates.no_duplicates(),
        !played.contains(pick),
    ensures
        remaining(candidates, played.push(pick)).len() == remaining(candidates, played).len() - if candidates.contains(
            pick,
        ) {
            1int
        } else {
            0int
        },
    decreases candidates.len(),
{
    reveal(Seq::filter);
    if candidates.len() > 0 {
        let rest = candidates.drop_last();
        let last = candidates.last();
        assert(rest.no_duplicates());
        lemma_remaining_count(rest, played, pick);
        assert(candidates[candidates.len() - 1] == last);
        if rest.contains(pick) {
            let i = choose|i: int| 0 <= i < rest.len() && rest[i] == pick;
            assert(candidates[i] == pick);
            assert(last != pick);
        }
        if candidates.contains(pick) && last != pick {
            let i = choose|i: int| 0 <= i < candidates.len() && candidates[i] == pick;
            assert(rest[i] == pick);
        }
        let more = played.push(pick);
        assert(more[played.len() as int] == pick);
        if played.contains(last) {
            let i = choose|i: int| 0 <= i < played.len() && played[i] == last;
            assert(more[i] == last);
        }
        if more.contains(last) && last != pick {
            let i = choose|i: int| 0 <= i < more.len() && more[i] == last;
            assert(played[i] == last);
        }
    }
}

/// Whether `filter` is one of `filters`.
fn has_filter(filters: &Vec<FilterTypes>, filter: FilterTypes) -> (r: bool)
    ensures
        r == filters@.contains(filter),
{
    let mut i: usize = 0;
    while i < filters.len()
        invariant
            i <= filters.len(),
            forall|j: int| 0 <= j < i ==> filters@[j] != filter,
        decreases filters.len() - i,
    {
        if filters[i] == filter {
            return true;
        }
        i = i + 1;
    }
    false
}

/// The catalog screen.
pub struct MVSelector {
    pub view_type: MenuOptions,
    pub avd: AudioVideoData,
    pub header: String,
    pub filters: Vec<FilterTypes>,
    pub played_list: Vec<String>,
}

/// What a selection on the catalog screen led to.
#[derive(Debug)]
pub enum Chosen {
    /// An option of the menu was selected: the screen is left for it.
    View(MenuOptions),
    /// A video was selected: the steps that play it, or `None` where it has
    /// no pairing.
    Play(Option<Vec<PlayerAction>>),
}

/// What a random selection led to.
#[derive(Debug)]
pub struct RandomPlay {
    /// The screen that follows.
    pub next: MenuOptions,
    /// The video that was drawn, or `None` where the round was exhausted.
    pub video: Option<String>,
    /// The steps that play the video, where one was drawn and has a pairing.
    pub steps: Option<Vec<PlayerAction>>,
}

impl MVSelector {
    /// `other` differs from `self` at most in the cached catalog.
    pub open spec fn same_but_cache(&self, other: &Self) -> bool {
        &&& self.view_type == other.view_type
        &&& self.header == other.header
        &&& self.filters == other.filters
        &&& self.played_list == other.played_list
        &&& self.avd.same_but_cache(&other.avd)
    }

    /// The candidates of the screen, where the catalog is `list`.
    pub open spec fn candidates(&self, list: Seq<Seq<char>>) -> Seq<Seq<char>> {
        candidates_of(list, self.filters@, subset_of(self.avd.search_filtered_list))
    }

    /// The screen over the media data `avd`, with no filter set and nothing
    /// played.
    pub fn new(avd: AudioVideoData) -> (r: Self)
        ensures
            r.view_type == MenuOptions::MVSelector,
            r.avd == avd,
            r.header@ == plain_header(),
            r.filters@ == Seq::<FilterTypes>::empty(),
            r.played_list@ == Seq::<String>::empty(),
    {
        MVSelector {
            view_type: MenuOptions::MVSelector,
            avd,
            header: "Search for an MV or search quit to exit".to_owned(),
            filters: Vec::new(),
            played_list: Vec::new(),
        }
    }

    /// The lines of the menu of the screen: every option but the screen
    /// itself.
    pub fn menu(&self) -> (r: Vec<String>)
        ensures
            r.deep_view() == menu_of(seq![label_of(self.view_type)]),
    {
        let mut exclude: Vec<String> = Vec::new();
        exclude.push(self.view_type.to_string());
        assert(exclude.deep_view() =~= seq![label_of(self.view_type)]);
        MenuOptions::generate_menu(exclude)
    }

    /// The catalog with the filters and the search subset applied, in the
    /// order of the catalog.
    pub fn filtered_list(&mut self, mtimes: &Vec<Option<u128>>) -> (r: Result<
        Vec<String>,
        CatalogError,
    >)
        ensures
            final(self).same_but_cache(old(self)),
            match r {
                Ok(found) => exists|list: Seq<Seq<char>>| #[trigger]
                    old(self).avd.lists(mtimes@, Ok(list), final(self).avd.video_list)
                        && found.deep_view() == old(self).candidates(list),
                Err(e) => old(self).avd.lists(mtimes@, Err(e), final(self).avd.video_list),
            },
    {
        let list = match self.avd.list_videos(mtimes) {
            Ok(list) => list,
            Err(e) => {
                return Err(e);
            },
        };
        let ghost filters = self.filters@;
        let ghost subset = subset_of(self.avd.search_filtered_list);
        let ghost pred = |identity: Seq<char>|
            passes(filters, identity) && in_subset(subset, identity);
        let live_only = has_filter(&self.filters, FilterTypes::MVs);
        let studio_only = has_filter(&self.filters, FilterTypes::Live);
        let mut found: Vec<String> = Vec::new();
        let mut i: usize = 0;
        proof {
            lemma_filter_take_none(list.deep_view(), pred);
        }
        while i < list.len()
            invariant
                i <= list.len(),
                filters == self.filters@,
                subset == subset_of(self.avd.search_filtered_list),
                pred == |identity: Seq<char>|
                    passes(filters, identity) && in_subset(subset, identity),
                live_only == filters.contains(FilterTypes::MVs),
                studio_only == filters.contains(FilterTypes::Live),
                found.deep_view() == list.deep_view().take(i as int).filter(pred),
            decreases list.len() - i,
        {
            let ghost before = found.deep_view();
            let category = classify(list[i].as_str());
            let passing = (!studio_only || category == Category::Studio) && (!live_only || category
                == Category::Live);
            let inside = match &self.avd.search_filtered_list {
                Some(only) => listed(only, list[i].as_str()),
                None => true,
            };
            proof {
                lemma_filter_take_step(list.deep_view(), pred, i as int);
                assert(list.deep_view()[i as int] == list@[i as int]@);
            }
            if passing && inside {
                found.push(list[i].clone());
                assert(found.deep_view() =~= before.push(list@[i as int]@));
            }
            i = i + 1;
        }
        proof {
            assert(list.deep_view().take(list.len() as int) =~= list.deep_view());
            assert(old(self).avd.lists(mtimes@, Ok(list.deep_view()), self.avd.video_list));
        }
        Ok(found)
    }

    /// Sets the filter where it is not set, and takes it off where it is.
    pub fn toggle_filter(&mut self, filter: FilterTypes) -> (r: MenuOptions)
        ensures
            r == MenuOptions::MVSelector,
            final(self).view_type == old(self).view_type,
            final(self).avd == old(self).avd,
            final(self).header == old(self).header,
            final(self).played_list == old(self).played_list,
            final(self).filters@ == if old(self).filters@.contains(filter) {
                old(self).filters@.filter(|f: FilterTypes| f != filter)
            } else {
                old(self).filters@.push(filter)
            },
    {
        if has_filter(&self.filters, filter) {
            let ghost pred = |f: FilterTypes| f != filter;
            let mut kept: Vec<FilterTypes> = Vec::new();
            let mut i: usize = 0;
            proof {
                lemma_filter_take_none(self.filters@, pred);
            }
            while i < self.filters.len()
                invariant
                    *self == *old(self),
                    pred == |f: FilterTypes| f != filter,
                    i <= self.filters.len(),
                    kept@ == self.filters@.take(i as int).filter(pred),
                decreases self.filters.len() - i,
            {
                proof {
                    lemma_filter_take_step(self.filters@, pred, i as int);
                }
                if self.filters[i] != filter {
                    kept.push(self.filters[i]);
                }
                i = i + 1;
            }
            assert(self.filters@.take(self.filters.len() as int) =~= self.filters@);
            self.filters = kept;
        } else {
            self.filters.push(filter);
        }
        MenuOptions::MVSelector
    }

    /// Sets the search subset, or takes it off.
    pub fn set_search_filters(&mut self, new_list: Option<Vec<String>>)
        ensures
            final(self).avd.search_filtered_list == new_list,
            final(self).view_type == old(self).view_type,
            final(self).header == old(self).header,
            final(self).filters == old(self).filters,
            final(self).played_list == old(self).played_list,
            final(self).avd.data_file == old(self).avd.data_file,
            final(self).avd.video_dir == old(self).avd.video_dir,
            final(self).avd.audio_dir == old(self).avd.audio_dir,
            final(self).avd.audio_video == old(self).avd.audio_video,
            final(self).avd.video_list == old(self).avd.video_list,
            final(self).avd.sorting == old(self).avd.sorting,
            final(self).avd.player == old(self).avd.player,
    {
        self.avd.search_filtered_list = new_list;
    }

    /// Drawing at random from the catalog `list` gives `play` and leaves the
    /// screen as `after`. Where every candidate was played, the round ends:
    /// nothing is drawn and the played list is cleared. Else one of the
    /// candidates that were not played is drawn, played, and added to the
    /// played list.
    pub open spec fn draws(&self, list: Seq<Seq<char>>, play: RandomPlay, after: &Self) -> bool {
        let rest = remaining(self.candidates(list), self.played_list.deep_view());
        if rest.len() == 0 {
            &&& play.video is None
            &&& play.steps is None
            &&& after.played_list.deep_view() == Seq::<Seq<char>>::empty()
            &&& after.header@ == exhausted_header()
            &&& after.avd.player == self.avd.player
        } else {
            &&& play.video matches Some(video)
            &&& rest.contains(video@)
            &&& after.played_list.deep_view() == self.played_list.deep_view().push(video@)
            &&& after.header@ == random_header(video@, after.played_list@.len())
            &&& self.avd.plays(video@, play.steps, after.avd.player@)
        }
    }

    /// The next video of the round, drawn with `number`: of the candidates
    /// that were not played, the one at position `number` modulo their count.
    /// It is added to the played list. Where no candidate is left, the played
    /// list is cleared and `None` says that the round is exhausted.
    pub fn draw(&mut self, candidates: &Vec<String>, number: usize) -> (r: Option<String>)
        ensures
            final(self).view_type == old(self).view_type,
            final(self).avd == old(self).avd,
            final(self).header == old(self).header,
            final(self).filters == old(self).filters,
            ({
                let rest = remaining(candidates.deep_view(), old(self).played_list.deep_view());
                if rest.len() == 0 {
                    r is None && final(self).played_list.deep_view() == Seq::<Seq<char>>::empty()
                } else {
                    &&& r matches Some(pick)
                    &&& pick@ == rest[(number as int) % (rest.len() as int)]
                    &&& final(self).played_list.deep_view() == old(self).played_list.deep_view().push(
                        pick@,
                    )
                }
            }),
    {
        let ghost played = self.played_list.deep_view();
        let ghost pred = |identity: Seq<char>| !played.contains(identity);
        let mut rest: Vec<String> = Vec::new();
        let mut i: usize = 0;
        proof {
            lemma_filter_take_none(candidates.deep_view(), pred);
        }
        while i < candidates.len()
            invariant
                *self == *old(self),
                played == self.played_list.deep_view(),
                pred == |identity: Seq<char>| !played.contains(identity),
                i <= candidates.len(),
                rest.deep_view() == candidates.deep_view().take(i as int).filter(pred),
            decreases candidates.len() - i,
        {
            let ghost before = rest.deep_view();
            proof {
                lemma_filter_take_step(candidates.deep_view(), pred, i as int);
                assert(candidates.deep_view()[i as int] == candidates@[i as int]@);
            }
            if !listed(&self.played_list, candidates[i].as_str()) {
                rest.push(candidates[i].clone());
                assert(rest.deep_view() =~= before.push(candidates@[i as int]@));
            }
            i = i + 1;
        }
        assert(candidates.deep_view().take(candidates.len() as int) =~= candidates.deep_view());
        if rest.len() == 0 {
            self.played_list = Vec::new();
            assert(self.played_list.deep_view() =~= Seq::<Seq<char>>::empty());
            None
        } else {
            let at = number % rest.len();
            let pick = rest[at].clone();
            assert(pick@ == rest.deep_view()[at as int]);
            self.played_list.push(pick.clone());
            assert(self.played_list.deep_view() =~= played.push(pick@));
            Some(pick)
        }
    }

    /// The next video of the round, drawn at random from the candidates that
    /// were not played, or `None` where the round is exhausted.
    pub fn next(&mut self, candidates: &Vec<String>) -> (r: Option<String>)
        ensures
            final(self).view_type == old(self).view_type,
            final(self).avd == old(self).avd,
            final(self).header == old(self).header,
            final(self).filters == old(self).filters,
            ({
                let rest = remaining(candidates.deep_view(), old(self).played_list.deep_view());
                if rest.len() == 0 {
                    r is None && final(self).played_list.deep_view() == Seq::<Seq<char>>::empty()
                } else {
                    &&& r matches Some(pick)
                    &&& rest.contains(pick@)
                    &&& candidates.deep_view().contains(pick@)
                    &&& !old(self).played_list.deep_view().contains(pick@)
                    &&& final(self).played_list.deep_view() == old(self).played_list.deep_view().push(
                        pick@,
                    )
                }
            }),
    {
        let number = random_number();
        let r = self.draw(candidates, number);
        proof {
            if r is Some {
                lemma_remaining_members(
                    candidates.deep_view(),
                    old(self).played_list.deep_view(),
                    r->Some_0@,
                );
            }
        }
        r
    }

    /// Plays a video drawn at random from the filtered catalog, or ends the
    /// round where every candidate was played.
    pub fn play_random(&mut self, mtimes: &Vec<Option<u128>>) -> (r: Result<
        RandomPlay,
        CatalogError,
    >)
        ensures
            final(self).view_type == old(self).view_type,
            final(self).filters == old(self).filters,
            final(self).avd.data_file == old(self).avd.data_file,
            final(self).avd.video_dir == old(self).avd.video_dir,
            final(self).avd.audio_dir == old(self).avd.audio_dir,
            final(self).avd.audio_video == old(self).avd.audio_video,
            final(self).avd.search_filtered_list == old(self).avd.search_filtered_list,
            final(self).avd.sorting == old(self).avd.sorting,
            match r {
                Ok(play) => play.next == MenuOptions::MVSelector && exists|list: Seq<Seq<char>>|
                    #[trigger] old(self).avd.lists(mtimes@, Ok(list), final(self).avd.video_list)
                        && old(self).draws(list, play, final(self)),
                Err(e) => old(self).avd.lists(mtimes@, Err(e), final(self).avd.video_list) && final(self).same_but_cache(old(self)),
            },
    {
        let candidates = match self.filtered_list(mtimes) {
            Ok(candidates) => candidates,
            Err(e) => {
                return Err(e);
            },
        };
        let ghost list = choose|list: Seq<Seq<char>>| #[trigger]
            old(self).avd.lists(mtimes@, Ok(list), self.avd.video_list) && candidates.deep_view()
                == old(self).candidates(list);
        match self.next(&candidates) {
            None => {
                self.header = "No more videos to play\n\nClearing played list".to_owned();
                let play = RandomPlay { next: MenuOptions::MVSelector, video: None, steps: None };
                assert(old(self).draws(list, play, self));
                Ok(play)
            },
            Some(video) => {
                let steps = self.avd.play_media(video.as_str());
                let count = decimal(self.played_list.len());
                self.header = "Playing ".to_owned().concat(video.as_str()).concat(
                    "\nPlayed ",
                ).concat(count.as_str()).concat(
                    " videos\n\nSearch for an MV or search quit to exit. ",
                );
                let play = RandomPlay { next: MenuOptions::MVSelector, video: Some(video), steps };
                assert(self.header@ =~= random_header(video@, self.played_list@.len()));
                assert(old(self).draws(list, play, self));
                Ok(play)
            },
        }
    }

    /// One turn of the screen, given the line that was selected on it: an
    /// option of the menu leaves the screen; any other line is taken for a
    /// video and played, and the screen is shown again.
    pub fn start(&mut self, selected: &str) -> (r: Chosen)
        ensures
            final(self).view_type == old(self).view_type,
            final(self).filters == old(self).filters,
            final(self).played_list == old(self).played_list,
            final(self).avd.data_file == old(self).avd.data_file,
            final(self).avd.video_dir == old(self).avd.video_dir,
            final(self).avd.audio_dir == old(self).avd.audio_dir,
            final(self).avd.audio_video == old(self).avd.audio_video,
            final(self).avd.video_list == old(self).avd.video_list,
            final(self).avd.search_filtered_list == old(self).avd.search_filtered_list,
            final(self).avd.sorting == old(self).avd.sorting,
            match r {
                Chosen::View(option) => (exists|i: int|
                    selects(selected@, i) && all_options()[i] == option) && final(self).header
                    == old(self).header && final(self).avd.player == old(self).avd.player,
                Chosen::Play(steps) => (forall|i: int|
                    0 <= i < all_options().len() ==> entry_of(#[trigger] all_options()[i])
                        != selected@) && old(self).avd.plays(
                    selected@,
                    steps,
                    final(self).avd.player@,
                ) && final(self).header@ == playing_header(selected@),
            },
    {
        match MenuOptions::get_selection(selected) {
            Some(option) => Chosen::View(option),
            None => {
                let steps = self.avd.play_media(selected);
                self.header = "Playing ".to_owned().concat(selected).concat(
                    "\n\nSearch for an MV or search quit to exit",
                );
                Chosen::Play(steps)
            },
        }
    }
}

/// `rand::random` at `usize`: a number drawn by the generator of the thread.
/// Nothing is claimed of the number.
#[verifier::external_body]
fn random_number() -> usize {
    rand::random::<usize>()
}

} // verus!
