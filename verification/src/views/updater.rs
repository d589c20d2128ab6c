//! The update session: the discovery of unpaired videos and of audio tracks,
//! and the linking of one to the other.

use crate::paths::{audio_extensions, extension_in, is_audio_file, is_video_file, video_extensions};
use crate::store::PairingStore;
use crate::text::{copy_texts, lemma_filter_take_none, lemma_filter_take_step, same_text};
use crate::views::fzf_selector::FzfSelector;
use crate::views::search_filter::back_entry;
use vstd::prelude::*;
use vstd::string::StrSliceExecFns;

verus! {

/// Where an update session stands.
#[derive(Debug, Clone, Copy, PartialEq, Eq, Structural)]
pub enum UpdateState {
    /// Nothing was scanned yet.
    Unscanned,
    /// The videos were scanned and some are unpaired; the audio tracks were
    /// not scanned yet.
    MvsScanned,
    /// An unpaired video is to be selected.
    Ready,
    /// A video was selected; its audio track is to be selected.
    Linking,
    /// The session is over.
    Done,
}

/// What the caller of an update session does next.
#[derive(Debug, Clone, Copy, PartialEq, Eq, Structural)]
pub enum UpdateAction {
    /// List the video root and hand the listing to `scan_mvs`.
    ScanVideos,
    /// Walk the audio root and hand the listing to `scan_audio`.
    ScanAudio,
    /// Offer the unpaired videos and hand the selection to `select_mv`.
    SelectVideo,
    /// Offer the audio tracks and hand the selection to `link`.
    SelectAudio,
    /// Leave the session: there is nothing left to update.
    Finish,
}

/// What the caller of an update session hands back.
#[derive(Debug)]
pub enum UpdateEvent {
    /// Nothing: the session is asked where it stands.
    Begin,
    /// The listing of the video root, or `None` where it does not exist or is
    /// not a directory.
    Videos(Option<Vec<String>>),
    /// The listing of everything under the audio root, or `None` where it
    /// does not exist or is not a directory.
    Audio(Option<Vec<String>>),
    /// The line that was selected.
    Selected(String),
}

/// Why a scan failed.
#[derive(Debug, Clone, Copy, PartialEq, Eq, Structural)]
pub enum ScanError {
    /// The root does not exist or is not a directory.
    NotADirectory,
}

/// The paths of `listing` that are videos and have no pairing.
pub open spec fn unpaired_videos(
    listing: Seq<Seq<char>>,
    pairs: Map<Seq<char>, Seq<char>>,
) -> Seq<Seq<char>> {
    listing.filter(
        |path: Seq<char>| extension_in(path, video_extensions()) && !pairs.dom().contains(path),
    )
}

/// The paths of `listing` that are audio tracks.
pub open spec fn audio_tracks(listing: Seq<Seq<char>>) -> Seq<Seq<char>> {
    listing.filter(|path: Seq<char>| extension_in(path, audio_extensions()))
}

/// The candidates without the video `selected`.
pub open spec fn without(candidates: Seq<Seq<char>>, selected: Seq<char>) -> Seq<Seq<char>> {
    candidates.filter(|mv: Seq<char>| mv != selected)
}

/// The audio track that a selection stands for: none for an empty selection
/// and none for the way back.
pub open spec fn audio_choice(selected: Seq<char>) -> Option<Seq<char>> {
    if selected.len() == 0 || selected == back_entry() {
        None
    } else {
        Some(selected)
    }
}

/// An update session.
pub struct Updater {
    pub mv_dir: String,
    pub audio_dir: String,
    pub mvs_found: Option<Vec<String>>,
    pub audio_found: Option<Vec<String>>,
    pub selected_mv: Option<String>,
    pub finished: bool,
}

impl Updater {
    /// Where the session stands. It is over once the way back was taken from
    /// the videos, or no unpaired video is left, or there is no audio track.
    pub open spec fn state(&self) -> UpdateState {
        if self.finished {
            UpdateState::Done
        } else {
            match self.mvs_found {
                None => UpdateState::Unscanned,
                Some(mvs) => if mvs@.len() == 0 {
                    UpdateState::Done
                } else {
                    match self.audio_found {
                        None => UpdateState::MvsScanned,
                        Some(audio) => if audio@.len() == 0 {
                            UpdateState::Done
                        } else if self.selected_mv is Some {
                            UpdateState::Linking
                        } else {
                            UpdateState::Ready
                        },
                    }
                },
            }
        }
    }

    /// What the caller does in a state.
    pub open spec fn action_in(state: UpdateState) -> UpdateAction {
        match state {
            UpdateState::Unscanned => UpdateAction::ScanVideos,
            UpdateState::MvsScanned => UpdateAction::ScanAudio,
            UpdateState::Ready => UpdateAction::SelectVideo,
            UpdateState::Linking => UpdateAction::SelectAudio,
            UpdateState::Done => UpdateAction::Finish,
        }
    }

    /// Taking the listing `paths` of the video root leads from `self` to
    /// `after`: the videos among the paths that have no pairing in `pairs`
    /// are the candidates.
    pub open spec fn scans_mvs(
        &self,
        paths: Seq<Seq<char>>,
        pairs: Map<Seq<char>, Seq<char>>,
        after: &Self,
    ) -> bool {
        &&& after.mv_dir == self.mv_dir
        &&& after.audio_dir == self.audio_dir
        &&& after.audio_found == self.audio_found
        &&& after.selected_mv == self.selected_mv
        &&& after.finished == self.finished
        &&& after.mvs_found matches Some(found)
        &&& found.deep_view() == unpaired_videos(paths, pairs)
    }

    /// Taking the listing `paths` of the audio root leads from `self` to
    /// `after`: the audio tracks among the paths are kept.
    pub open spec fn scans_audio(&self, paths: Seq<Seq<char>>, after: &Self) -> bool {
        &&& after.mv_dir == self.mv_dir
        &&& after.audio_dir == self.audio_dir
        &&& after.mvs_found == self.mvs_found
        &&& after.selected_mv == self.selected_mv
        &&& after.finished == self.finished
        &&& after.audio_found matches Some(found)
        &&& found.deep_view() == audio_tracks(paths)
    }

    /// Taking the line `line` as the selection among the videos leads from
    /// `self` to `after`: the way back ends the session, any other line is
    /// the video to link.
    pub open spec fn selects_mv(&self, line: Seq<char>, after: &Self) -> bool {
        &&& after.mv_dir == self.mv_dir
        &&& after.audio_dir == self.audio_dir
        &&& after.mvs_found == self.mvs_found
        &&& after.audio_found == self.audio_found
        &&& if line == back_entry() {
            after.finished && after.selected_mv is None
        } else {
            after.finished == self.finished && (after.selected_mv matches Some(mv) && mv@ == line)
        }
    }

    /// Taking the line `line` as the selection among the audio tracks leads
    /// from `self` and the pairs `pairs` to `after` and `pairs_after`: an
    /// audio track is paired with the selected video, which leaves the
    /// candidates; the way back and an empty line change nothing but that no
    /// video is selected any more.
    pub open spec fn links(
        &self,
        pairs: Map<Seq<char>, Seq<char>>,
        line: Seq<char>,
        after: &Self,
        pairs_after: Map<Seq<char>, Seq<char>>,
    ) -> bool {
        &&& after.mv_dir == self.mv_dir
        &&& after.audio_dir == self.audio_dir
        &&& after.audio_found == self.audio_found
        &&& after.finished == self.finished
        &&& after.selected_mv is None
        &&& match (self.selected_mv, audio_choice(line)) {
            (Some(mv), Some(audio)) => {
                &&& pairs_after == pairs.insert(mv@, audio)
                &&& match self.mvs_found {
                    Some(mvs) => after.mvs_found matches Some(left) && left.deep_view() == without(
                        mvs.deep_view(),
                        mv@,
                    ),
                    None => after.mvs_found is None,
                }
            },
            _ => pairs_after == pairs && after.mvs_found == self.mvs_found,
        }
    }

    /// A session over the two roots, with nothing scanned.
    pub fn new(mv_dir: String, audio_dir: String) -> (r: Self)
        ensures
            r.mv_dir == mv_dir,
            r.audio_dir == audio_dir,
            r.mvs_found is None,
            r.audio_found is None,
            r.selected_mv is None,
            !r.finished,
            r.state() == UpdateState::Unscanned,
    {
        Updater {
            mv_dir,
            audio_dir,
            mvs_found: None,
            audio_found: None,
            selected_mv: None,
            finished: false,
        }
    }

    /// Where the session stands.
    pub fn current_state(&self) -> (r: UpdateState)
        ensures
            r == self.state(),
    {
        if self.finished {
            return UpdateState::Done;
        }
        match &self.mvs_found {
            None => UpdateState::Unscanned,
            Some(mvs) => {
                if mvs.len() == 0 {
                    UpdateState::Done
                } else {
                    match &self.audio_found {
                        None => UpdateState::MvsScanned,
                        Some(audio) => {
                            if audio.len() == 0 {
                                UpdateState::Done
                            } else if self.selected_mv.is_some() {
                                UpdateState::Linking
                            } else {
                                UpdateState::Ready
                            }
                        },
                    }
                }
            },
        }
    }

    /// What the caller does next.
    pub fn next_action(&self) -> (r: UpdateAction)
        ensures
            r == Self::action_in(self.state()),
    {
        match self.current_state() {
            UpdateState::Unscanned => UpdateAction::ScanVideos,
            UpdateState::MvsScanned => UpdateAction::ScanAudio,
            UpdateState::Ready => UpdateAction::SelectVideo,
            UpdateState::Linking => UpdateAction::SelectAudio,
            UpdateState::Done => UpdateAction::Finish,
        }
    }

    /// Takes the listing of the video root: the videos among its paths that
    /// have no pairing in `store` become the candidates. `None` stands for a
    /// root that does not exist or is not a directory.
    pub fn scan_mvs(&mut self, listing: Option<&Vec<String>>, store: &PairingStore) -> (r: Result<
        (),
        ScanError,
    >)
        ensures
            final(self).mv_dir == old(self).mv_dir,
            final(self).audio_dir == old(self).audio_dir,
            final(self).audio_found == old(self).audio_found,
            final(self).selected_mv == old(self).selected_mv,
            final(self).finished == old(self).finished,
            match listing {
                Some(paths) => r is Ok && (final(self).mvs_found matches Some(found)
                    && found.deep_view() == unpaired_videos(paths.deep_view(), store@)),
                None => r == Err::<(), ScanError>(ScanError::NotADirectory) && final(self).mvs_found
                    == old(self).mvs_found,
            },
    {
        let paths = match listing {
            Some(paths) => paths,
            None => {
                return Err(ScanError::NotADirectory);
            },
        };
        let ghost pred = |path: Seq<char>|
            extension_in(path, video_extensions()) && !store@.dom().contains(path);
        let mut found: Vec<String> = Vec::new();
        let mut i: usize = 0;
        proof {
            lemma_filter_take_none(paths.deep_view(), pred);
        }
        while i < paths.len()
            invariant
                pred == |path: Seq<char>|
                    extension_in(path, video_extensions()) && !store@.dom().contains(path),
                i <= paths.len(),
                found.deep_view() == paths.deep_view().take(i as int).filter(pred),
            decreases paths.len() - i,
        {
            let ghost before = found.deep_view();
            proof {
                lemma_filter_take_step(paths.deep_view(), pred, i as int);
                assert(paths.deep_view()[i as int] == paths@[i as int]@);
            }
            if is_video_file(paths[i].as_str()) && !store.contains(paths[i].as_str()) {
                found.push(paths[i].clone());
                assert(found.deep_view() =~= before.push(paths@[i as int]@));
            }
            i = i + 1;
        }
        assert(paths.deep_view().take(paths.len() as int) =~= paths.deep_view());
        self.mvs_found = Some(found);
        Ok(())
    }

    /// Takes the listing of everything under the audio root: the audio tracks
    /// among its paths are kept for the session. `None` stands for a root
    /// that does not exist or is not a directory.
    pub fn scan_audio(&mut self, listing: Option<&Vec<String>>) -> (r: Result<(), ScanError>)
        ensures
            final(self).mv_dir == old(self).mv_dir,
            final(self).audio_dir == old(self).audio_dir,
            final(self).mvs_found == old(self).mvs_found,
            final(self).selected_mv == old(self).selected_mv,
            final(self).finished == old(self).finished,
            match listing {
                Some(paths) => r is Ok && (final(self).audio_found matches Some(found)
                    && found.deep_view() == audio_tracks(paths.deep_view())),
                None => r == Err::<(), ScanError>(ScanError::NotADirectory) && final(self).audio_found == old(self).audio_found,
            },
    {
        let paths = match listing {
            Some(paths) => paths,
            None => {
                return Err(ScanError::NotADirectory);
            },
        };
        let ghost pred = |path: Seq<char>| extension_in(path, audio_extensions());
        let mut found: Vec<String> = Vec::new();
        let mut i: usize = 0;
        proof {
            lemma_filter_take_none(paths.deep_view(), pred);
        }
        while i < paths.len()
            invariant
                pred == |path: Seq<char>| extension_in(path, audio_extensions()),
                i <= paths.len(),
                found.deep_view() == paths.deep_view().take(i as int).filter(pred),
            decreases paths.len() - i,
        {
            let ghost before = found.deep_view();
            proof {
                lemma_filter_take_step(paths.deep_view(), pred, i as int);
                assert(paths.deep_view()[i as int] == paths@[i as int]@);
            }
            if is_audio_file(paths[i].as_str()) {
                found.push(paths[i].clone());
                assert(found.deep_view() =~= before.push(paths@[i as int]@));
            }
            i = i + 1;
        }
        assert(paths.deep_view().take(paths.len() as int) =~= paths.deep_view());
        self.audio_found = Some(found);
        Ok(())
    }

    /// The request to the selector for a video: the unpaired videos, then the
    /// way back.
    pub fn selector(&self) -> (r: FzfSelector)
        ensures
            r.inputs() == match self.mvs_found {
                Some(mvs) => mvs.deep_view(),
                None => Seq::<Seq<char>>::empty(),
            },
            r.other_options() == seq![back_entry()],
            r.height() == "80%"@,
    {
        let mut options: Vec<String> = Vec::new();
        options.push("[[Back]]".to_owned());
        assert(options.deep_view() =~= seq![back_entry()]);
        let inputs = match &self.mvs_found {
            Some(mvs) => Some(copy_texts(mvs)),
            None => None,
        };
        FzfSelector::new(inputs, Some(options), None)
    }

    /// Takes the selection among the unpaired videos: the way back ends the
    /// session, any other line is the video to link.
    pub fn select_mv(&mut self, selected: String)
        ensures
            final(self).mv_dir == old(self).mv_dir,
            final(self).audio_dir == old(self).audio_dir,
            final(self).mvs_found == old(self).mvs_found,
            final(self).audio_found == old(self).audio_found,
            if selected@ == back_entry() {
                final(self).finished && final(self).selected_mv is None && final(self).state()
                    == UpdateState::Done
            } else {
                final(self).finished == old(self).finished && final(self).selected_mv == Some(
                    selected,
                )
            },
    {
        if same_text(selected.as_str(), "[[Back]]") {
            self.selected_mv = None;
            self.finished = true;
        } else {
            self.selected_mv = Some(selected);
        }
    }

    /// Links the video `selected_mv` to the audio track `selected_audio`: the
    /// pairing is put into `store` and the video leaves the candidates.
    /// Without an audio track nothing is linked. Either way no video is
    /// selected afterwards.
    pub fn update_entry(
        &mut self,
        store: &mut PairingStore,
        selected_mv: String,
        selected_audio: Option<String>,
    )
        ensures
            final(self).mv_dir == old(self).mv_dir,
            final(self).audio_dir == old(self).audio_dir,
            final(self).audio_found == old(self).audio_found,
            final(self).finished == old(self).finished,
            final(self).selected_mv is None,
            match selected_audio {
                Some(audio) => {
                    &&& final(store)@ == old(store)@.insert(selected_mv@, audio@)
                    &&& final(store)@.dom().contains(selected_mv@)
                    &&& match old(self).mvs_found {
                        Some(mvs) => final(self).mvs_found matches Some(left) && left.deep_view()
                            == without(mvs.deep_view(), selected_mv@),
                        None => final(self).mvs_found is None,
                    }
                },
                None => *final(store) == *old(store) && final(self).mvs_found == old(self).mvs_found,
            },
    {
        self.selected_mv = None;
        let audio = match selected_audio {
            Some(audio) => audio,
            None => {
                return ;
            },
        };
        let ghost pred = |mv: Seq<char>| mv != selected_mv@;
        let left = match &self.mvs_found {
            Some(mvs) => {
                let mut left: Vec<String> = Vec::new();
                let mut i: usize = 0;
                proof {
                    lemma_filter_take_none(mvs.deep_view(), pred);
                }
                while i < mvs.len()
                    invariant
                        pred == |mv: Seq<char>| mv != selected_mv@,
                        i <= mvs.len(),
                        left.deep_view() == mvs.deep_view().take(i as int).filter(pred),
                    decreases mvs.len() - i,
                {
                    let ghost before = left.deep_view();
                    proof {
                        lemma_filter_take_step(mvs.deep_view(), pred, i as int);
                        assert(mvs.deep_view()[i as int] == mvs@[i as int]@);
                    }
                    if mvs[i] != selected_mv {
                        left.push(mvs[i].clone());
                        assert(left.deep_view() =~= before.push(mvs@[i as int]@));
                    }
                    i = i + 1;
                }
                assert(mvs.deep_view().take(mvs.len() as int) =~= mvs.deep_view());
                Some(left)
            },
            None => None,
        };
        self.mvs_found = left;
        store.insert(selected_mv, audio);
    }

    /// Takes the selection among the audio tracks for the video that is
    /// selected: an audio track is linked to it, the way back or an empty
    /// selection links nothing. Without a selected video nothing happens.
    pub fn link(&mut self, store: &mut PairingStore, selected_audio: String)
        ensures
            final(self).mv_dir == old(self).mv_dir,
            final(self).audio_dir == old(self).audio_dir,
            final(self).audio_found == old(self).audio_found,
            final(self).finished == old(self).finished,
            final(self).selected_mv is None,
            match (old(self).selected_mv, audio_choice(selected_audio@)) {
                (Some(mv), Some(audio)) => {
                    &&& final(store)@ == old(store)@.insert(mv@, audio)
                    &&& match old(self).mvs_found {
                        Some(mvs) => final(self).mvs_found matches Some(left) && left.deep_view()
                            == without(mvs.deep_view(), mv@),
                        None => final(self).mvs_found is None,
                    }
                },
                _ => *final(store) == *old(store) && final(self).mvs_found == old(self).mvs_found,
            },
    {
        let selected_mv = match &self.selected_mv {
            Some(mv) => mv.clone(),
            None => {
                return ;
            },
        };
        let audio = ListAudios::choice(selected_audio);
        self.update_entry(store, selected_mv, audio);
    }

    /// One turn of the session: takes what the caller hands back, where it is
    /// what the state of the session waits for, and says what the caller does
    /// next. A listing is taken for the videos before anything was scanned,
    /// and for the audio tracks once the videos were scanned; a selected line
    /// is taken for a video while one is to be selected, and for its audio
    /// track while that is to be selected. Anything else changes nothing. A
    /// scan of what is no directory fails and changes nothing.
    pub fn start(&mut self, store: &mut PairingStore, event: UpdateEvent) -> (r: Result<
        UpdateAction,
        ScanError,
    >)
        ensures
            match (old(self).state(), event) {
                (UpdateState::Unscanned, UpdateEvent::Videos(Some(paths))) => {
                    &&& r == Ok::<UpdateAction, ScanError>(Self::action_in(final(self).state()))
                    &&& old(self).scans_mvs(paths.deep_view(), old(store)@, final(self))
                    &&& *final(store) == *old(store)
                },
                (UpdateState::Unscanned, UpdateEvent::Videos(None)) => {
                    &&& r == Err::<UpdateAction, ScanError>(ScanError::NotADirectory)
                    &&& *final(self) == *old(self)
                    &&& *final(store) == *old(store)
                },
                (UpdateState::MvsScanned, UpdateEvent::Audio(Some(paths))) => {
                    &&& r == Ok::<UpdateAction, ScanError>(Self::action_in(final(self).state()))
                    &&& old(self).scans_audio(paths.deep_view(), final(self))
                    &&& *final(store) == *old(store)
                },
                (UpdateState::MvsScanned, UpdateEvent::Audio(None)) => {
                    &&& r == Err::<UpdateAction, ScanError>(ScanError::NotADirectory)
                    &&& *final(self) == *old(self)
                    &&& *final(store) == *old(store)
                },
                (UpdateState::Ready, UpdateEvent::Selected(line)) => {
                    &&& r == Ok::<UpdateAction, ScanError>(Self::action_in(final(self).state()))
                    &&& old(self).selects_mv(line@, final(self))
                    &&& *final(store) == *old(store)
                },
                (UpdateState::Linking, UpdateEvent::Selected(line)) => {
                    &&& r == Ok::<UpdateAction, ScanError>(Self::action_in(final(self).state()))
                    &&& old(self).links(old(store)@, line@, final(self), final(store)@)
                },
                _ => {
                    &&& r == Ok::<UpdateAction, ScanError>(Self::action_in(old(self).state()))
                    &&& *final(self) == *old(self)
                    &&& *final(store) == *old(store)
                },
            },
    {
        let state = self.current_state();
        match event {
            UpdateEvent::Begin => {},
            UpdateEvent::Videos(listing) => {
                if state == UpdateState::Unscanned {
                    match self.scan_mvs(listing.as_ref(), store) {
                        Ok(()) => {},
                        Err(e) => {
                            return Err(e);
                        },
                    }
                }
            },
            UpdateEvent::Audio(listing) => {
                if state == UpdateState::MvsScanned {
                    match self.scan_audio(listing.as_ref()) {
                        Ok(()) => {},
                        Err(e) => {
                            return Err(e);
                        },
                    }
                }
            },
            UpdateEvent::Selected(line) => {
                if state == UpdateState::Ready {
                    self.select_mv(line);
                } else if state == UpdateState::Linking {
                    self.link(store, line);
                }
            },
        }
        Ok(self.next_action())
    }
}

/// The screen on which the audio track of a video is selected.
pub struct ListAudios {
    pub audio_list: Vec<String>,
}

impl ListAudios {
    /// The screen over the audio tracks `audio_found`.
    pub fn new(audio_found: Vec<String>) -> (r: Self)
        ensures
            r.audio_list == audio_found,
    {
        ListAudios { audio_list: audio_found }
    }

    /// The request to the selector: the audio tracks, then the way back.
    pub fn selector(&self) -> (r: FzfSelector)
        ensures
            r.inputs() == self.audio_list.deep_view(),
            r.other_options() == seq![back_entry()],
            r.height() == "80%"@,
    {
        let mut options: Vec<String> = Vec::new();
        options.push("[[Back]]".to_owned());
        assert(options.deep_view() =~= seq![back_entry()]);
        FzfSelector::new(Some(copy_texts(&self.audio_list)), Some(options), None)
    }

    /// The audio track that the selection stands for.
    pub fn choice(selected_audio: String) -> (r: Option<String>)
        ensures
            match r {
                Some(audio) => audio_choice(selected_audio@) == Some(audio@),
                None => audio_choice(selected_audio@) is None,
            },
    {
        if selected_audio.as_str().unicode_len() == 0 {
            return None;
        }
        if same_text(selected_audio.as_str(), "[[Back]]") {
            None
        } else {
            Some(selected_audio)
        }
    }

    /// The audio track that was selected on the screen, given what the
    /// selector answered: none for an empty answer and none for the way back.
    pub fn start(&self, selected_audio: String) -> (r: Option<String>)
        ensures
            match r {
                Some(audio) => audio_choice(selected_audio@) == Some(audio@),
                None => audio_choice(selected_audio@) is None,
            },
    {
        ListAudios::choice(selected_audio)
    }
}

} // verus!
