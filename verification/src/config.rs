//! The configuration.

use crate::avmod::{AudioVideoData, Sorting};
use crate::media_player::PlayerView;
use crate::store::PairingStore;
use vstd::prelude::*;

verus! {

/// The recognized options: where the pairing document lies, the root
/// directories of the videos and of the audio tracks, and the command
/// templates of the two players.
#[derive(Debug)]
pub struct Config {
    pub data_file: String,
    pub video_dir: String,
    pub audio_dir: String,
    pub video_cmd: String,
    pub audio_cmd: String,
}

impl Config {
    /// The media data that the configuration describes, over an empty store.
    pub fn media_data(&self) -> (r: AudioVideoData)
        ensures
            r.data_file@ == self.data_file@,
            r.video_dir@ == self.video_dir@,
            r.audio_dir@ == self.audio_dir@,
            r.audio_video@ == Map::<Seq<char>, Seq<char>>::empty(),
            r.video_list is None,
            r.search_filtered_list is None,
            r.sorting == Sorting::Descending,
            r.player@ == (PlayerView {
                audio_live: false,
                video_live: false,
                video_cmd: self.video_cmd@,
                audio_cmd: self.audio_cmd@,
            }),
    {
        AudioVideoData::new(
            self.data_file.as_str(),
            self.video_dir.clone(),
            self.audio_dir.clone(),
            PairingStore::new(),
            self.video_cmd.clone(),
            self.audio_cmd.clone(),
        )
    }
}

} // verus!
