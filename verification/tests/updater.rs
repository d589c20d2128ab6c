use mvplayer::store::PairingStore;
use mvplayer::views::updater::{
    ListAudios, ScanError, UpdateAction, UpdateEvent, UpdateState, Updater,
};
use mvplayer::views::fzf_selector::SelectType;
use std::path::Path;

fn texts(list: &[&str]) -> Vec<String> {
    list.iter().map(|s| s.to_string()).collect()
}

/// The files that exist, as the listing handed to the library.
fn create_file(listing: &mut Vec<String>, file: &Path) {
    listing.push(file.to_str().unwrap().to_string());
}

#[test]
fn test_scan_mvs() {
    let temp_dir = Path::new("/tmp/test_scan_mvs");
    let mv_dir = temp_dir.join("mv_dir");
    let video_file = mv_dir.join("video.mp4");
    let mut listing: Vec<String> = Vec::new();
    create_file(&mut listing, &video_file);
    let mut store = PairingStore::new();
    let mut updater = Updater::new(mv_dir.to_str().unwrap().to_string(), "".to_string());
    updater.scan_mvs(Some(&listing), &store).unwrap();
    assert_eq!(updater.mvs_found.as_ref().unwrap().len(), 1);
    assert_eq!(updater.mvs_found.as_ref().unwrap()[0], video_file.to_str().unwrap());
    store.insert(video_file.to_str().unwrap().to_string(), "".to_string());
    updater.scan_mvs(Some(&listing), &store).unwrap();
    assert_eq!(updater.mvs_found.as_ref().unwrap().len(), 0);
}

#[test]
fn test_scan_audio() {
    let temp_dir = Path::new("/tmp/test_scan_audio");
    let audio_dir = temp_dir.join("audio_dir");
    let sub_dir_1 = audio_dir.join("sub_dir_1").join("sub_sub_dir_1");
    let audio_file = sub_dir_1.join("audio.mp3");
    let sub_dir_2 = audio_dir.join("sub_dir_2").join("sub_sub_dir_2");
    let audio_file_2 = sub_dir_2.join("audio_2.flac");
    let not_audio_file = sub_dir_2.join("not_audio.txt");
    let mut listing: Vec<String> = Vec::new();
    create_file(&mut listing, &audio_dir);
    create_file(&mut listing, &sub_dir_1);
    create_file(&mut listing, &audio_file);
    create_file(&mut listing, &sub_dir_2);
    create_file(&mut listing, &audio_file_2);
    create_file(&mut listing, &not_audio_file);
    let mut updater = Updater::new("".to_string(), audio_dir.to_str().unwrap().to_string());
    updater.scan_audio(Some(&listing)).unwrap();
    assert_eq!(updater.audio_found.as_ref().unwrap().len(), 2);
    assert!(updater
        .audio_found
        .as_ref()
        .unwrap()
        .contains(&audio_file.to_str().unwrap().to_string()));
    assert!(updater
        .audio_found
        .as_ref()
        .unwrap()
        .contains(&audio_file_2.to_str().unwrap().to_string()));
}

#[test]
fn test_update_entry() {
    let mut rc = PairingStore::new();
    let mut updater = Updater::new("".to_string(), "".to_string());
    updater.audio_found = Some(vec!["audio.mp3".to_string()]);
    updater.mvs_found = Some(vec!["mv_0.mp4".to_string(), "mv_1.mp4".to_string()]);
    assert_eq!(rc.len(), 0);
    updater.update_entry(&mut rc, "mv_0.mp4".to_string(), Some("audio.mp3".to_string()));
    assert_eq!(rc.len(), 1);
    assert_eq!(rc.get("mv_0.mp4").unwrap().to_string(), "audio.mp3".to_string());
}

#[test]
fn update_entry_takes_the_video_out_of_the_candidates() {
    let mut store = PairingStore::new();
    let mut updater = Updater::new("".to_string(), "".to_string());
    updater.audio_found = Some(texts(&["audio.mp3"]));
    updater.mvs_found = Some(texts(&["mv_0.mp4", "mv_1.mp4", "mv_0.mp4"]));
    updater.selected_mv = Some("mv_0.mp4".to_string());
    updater.update_entry(&mut store, "mv_0.mp4".to_string(), Some("audio.mp3".to_string()));
    assert_eq!(updater.mvs_found, Some(texts(&["mv_1.mp4"])));
    assert_eq!(updater.selected_mv, None);
    assert_eq!(updater.current_state(), UpdateState::Ready);
}

#[test]
fn update_entry_without_audio_links_nothing() {
    let mut store = PairingStore::new();
    let mut updater = Updater::new("".to_string(), "".to_string());
    updater.audio_found = Some(texts(&["audio.mp3"]));
    updater.mvs_found = Some(texts(&["mv_0.mp4"]));
    updater.selected_mv = Some("mv_0.mp4".to_string());
    updater.update_entry(&mut store, "mv_0.mp4".to_string(), None);
    assert_eq!(store.len(), 0);
    assert_eq!(updater.mvs_found, Some(texts(&["mv_0.mp4"])));
    assert_eq!(updater.current_state(), UpdateState::Ready);
}

#[test]
fn scan_keeps_the_allowed_extensions_only() {
    let store = PairingStore::new();
    let mut updater = Updater::new("/v".to_string(), "/a".to_string());
    let videos = texts(&[
        "/v/a.mp4", "/v/b.mkv", "/v/c.avi", "/v/d.webm", "/v/e.ts", "/v/f.flv", "/v/g.wmv",
        "/v/h.mov", "/v/i.mpg", "/v/j.mpeg", "/v/k.mp3", "/v/l.MP4", "/v/mp4", "/v/.mp4",
        "/v/m.mp4.txt", "/v/n", "/v/o.tar.mkv",
    ]);
    updater.scan_mvs(Some(&videos), &store).unwrap();
    assert_eq!(
        updater.mvs_found,
        Some(texts(&[
            "/v/a.mp4", "/v/b.mkv", "/v/c.avi", "/v/d.webm", "/v/e.ts", "/v/f.flv", "/v/g.wmv",
            "/v/h.mov", "/v/i.mpg", "/v/j.mpeg", "/v/o.tar.mkv",
        ]))
    );
    let audio = texts(&[
        "/a/a.mp3", "/a/x/b.wav", "/a/c.ogg", "/a/d.flac", "/a/e.m4a", "/a/f.aac", "/a/g.mp4",
        "/a/h.txt", "/a/x.mp3/i",
    ]);
    updater.scan_audio(Some(&audio)).unwrap();
    assert_eq!(
        updater.audio_found,
        Some(texts(&["/a/a.mp3", "/a/x/b.wav", "/a/c.ogg", "/a/d.flac", "/a/e.m4a", "/a/f.aac"]))
    );
}

#[test]
fn a_scan_fails_on_a_root_that_is_no_directory() {
    let store = PairingStore::new();
    let mut updater = Updater::new("/v".to_string(), "/a".to_string());
    assert_eq!(updater.scan_mvs(None, &store), Err(ScanError::NotADirectory));
    assert_eq!(updater.mvs_found, None);
    assert_eq!(updater.scan_audio(None), Err(ScanError::NotADirectory));
    assert_eq!(updater.audio_found, None);
    assert_eq!(updater.current_state(), UpdateState::Unscanned);
}

#[test]
fn update_session_linking() {
    let mut store = PairingStore::new();
    let mut updater = Updater::new("/v".to_string(), "/a".to_string());
    assert_eq!(updater.next_action(), UpdateAction::ScanVideos);
    updater.scan_mvs(Some(&texts(&["/v/video.mp4"])), &store).unwrap();
    assert_eq!(updater.current_state(), UpdateState::MvsScanned);
    assert_eq!(updater.next_action(), UpdateAction::ScanAudio);
    updater.scan_audio(Some(&texts(&["/a/audio.mp3"]))).unwrap();
    assert_eq!(updater.current_state(), UpdateState::Ready);
    assert_eq!(updater.next_action(), UpdateAction::SelectVideo);
    updater.select_mv("/v/video.mp4".to_string());
    assert_eq!(updater.current_state(), UpdateState::Linking);
    assert_eq!(updater.next_action(), UpdateAction::SelectAudio);
    updater.link(&mut store, "/a/audio.mp3".to_string());
    assert!(store.contains("/v/video.mp4"));
    assert_eq!(store.get("/v/video.mp4"), Some("/a/audio.mp3".to_string()));
    assert_eq!(updater.mvs_found, Some(texts(&[])));
    assert_eq!(updater.current_state(), UpdateState::Done);
    assert_eq!(updater.next_action(), UpdateAction::Finish);
}

#[test]
fn a_session_without_unpaired_videos_is_over_at_once() {
    let mut store = PairingStore::new();
    store.insert("/v/video.mp4".to_string(), "/a/audio.mp3".to_string());
    let mut updater = Updater::new("/v".to_string(), "/a".to_string());
    updater.scan_mvs(Some(&texts(&["/v/video.mp4", "/v/notes.txt"])), &store).unwrap();
    assert_eq!(updater.current_state(), UpdateState::Done);
}

#[test]
fn a_session_without_audio_tracks_is_over() {
    let store = PairingStore::new();
    let mut updater = Updater::new("/v".to_string(), "/a".to_string());
    updater.scan_mvs(Some(&texts(&["/v/video.mp4"])), &store).unwrap();
    updater.scan_audio(Some(&texts(&["/a/cover.jpg"]))).unwrap();
    assert_eq!(updater.current_state(), UpdateState::Done);
}

#[test]
fn back_from_the_videos_ends_the_session() {
    let store = PairingStore::new();
    let mut updater = Updater::new("/v".to_string(), "/a".to_string());
    updater.scan_mvs(Some(&texts(&["/v/video.mp4"])), &store).unwrap();
    updater.scan_audio(Some(&texts(&["/a/audio.mp3"]))).unwrap();
    updater.select_mv("[[Back]]".to_string());
    assert_eq!(updater.current_state(), UpdateState::Done);
    assert_eq!(updater.selected_mv, None);
}

#[test]
fn back_from_the_audio_tracks_returns_to_the_videos() {
    let mut store = PairingStore::new();
    let mut updater = Updater::new("/v".to_string(), "/a".to_string());
    updater.scan_mvs(Some(&texts(&["/v/one.mp4", "/v/two.mp4"])), &store).unwrap();
    updater.scan_audio(Some(&texts(&["/a/audio.mp3"]))).unwrap();
    updater.select_mv("/v/one.mp4".to_string());
    updater.link(&mut store, "[[Back]]".to_string());
    assert_eq!(updater.current_state(), UpdateState::Ready);
    assert_eq!(updater.mvs_found, Some(texts(&["/v/one.mp4", "/v/two.mp4"])));
    assert_eq!(store.len(), 0);
    updater.select_mv("/v/one.mp4".to_string());
    updater.link(&mut store, "".to_string());
    assert_eq!(updater.current_state(), UpdateState::Ready);
    assert_eq!(store.len(), 0);
    updater.select_mv("/v/two.mp4".to_string());
    updater.link(&mut store, "/a/audio.mp3".to_string());
    assert_eq!(updater.current_state(), UpdateState::Ready);
    assert_eq!(updater.mvs_found, Some(texts(&["/v/one.mp4"])));
    assert_eq!(store.get("/v/two.mp4"), Some("/a/audio.mp3".to_string()));
}

#[test]
fn link_without_a_selected_video_does_nothing() {
    let mut store = PairingStore::new();
    let mut updater = Updater::new("/v".to_string(), "/a".to_string());
    updater.link(&mut store, "/a/audio.mp3".to_string());
    assert_eq!(store.len(), 0);
    assert_eq!(updater.current_state(), UpdateState::Unscanned);
}

#[test]
fn the_audio_screen_reads_the_selection() {
    let screen = ListAudios::new(texts(&["/a/one.mp3", "/a/two.mp3"]));
    assert_eq!(screen.start("/a/two.mp3".to_string()), Some("/a/two.mp3".to_string()));
    assert_eq!(screen.start("".to_string()), None);
    assert_eq!(screen.start("[[Back]]".to_string()), None);
    assert_eq!(ListAudios::choice("[Back]".to_string()), Some("[Back]".to_string()));
    let request = screen.selector();
    assert_eq!(request.fzf_input(), "/a/one.mp3\n/a/two.mp3\n[[Back]]\n");
    assert_eq!(
        request.fzf_args(SelectType::Single),
        texts(&["-i", "--height", "80%", "--reverse", "--tiebreak=begin"])
    );
}

#[test]
fn a_session_runs_turn_by_turn() {
    let mut store = PairingStore::new();
    let mut updater = Updater::new("/v".to_string(), "/a".to_string());
    assert_eq!(updater.start(&mut store, UpdateEvent::Begin), Ok(UpdateAction::ScanVideos));
    assert_eq!(
        updater.start(&mut store, UpdateEvent::Videos(Some(texts(&["/v/one.mp4", "/v/two.mkv"])))),
        Ok(UpdateAction::ScanAudio)
    );
    assert_eq!(
        updater.start(&mut store, UpdateEvent::Audio(Some(texts(&["/a/x/one.flac", "/a/cover.jpg"])))),
        Ok(UpdateAction::SelectVideo)
    );
    assert_eq!(
        updater.start(&mut store, UpdateEvent::Selected("/v/two.mkv".to_string())),
        Ok(UpdateAction::SelectAudio)
    );
    assert_eq!(
        updater.start(&mut store, UpdateEvent::Selected("[[Back]]".to_string())),
        Ok(UpdateAction::SelectVideo)
    );
    assert_eq!(store.len(), 0);
    updater.start(&mut store, UpdateEvent::Selected("/v/two.mkv".to_string())).unwrap();
    assert_eq!(
        updater.start(&mut store, UpdateEvent::Selected("/a/x/one.flac".to_string())),
        Ok(UpdateAction::SelectVideo)
    );
    assert_eq!(store.get("/v/two.mkv"), Some("/a/x/one.flac".to_string()));
    assert_eq!(updater.mvs_found, Some(texts(&["/v/one.mp4"])));
    updater.start(&mut store, UpdateEvent::Selected("/v/one.mp4".to_string())).unwrap();
    assert_eq!(
        updater.start(&mut store, UpdateEvent::Selected("/a/x/one.flac".to_string())),
        Ok(UpdateAction::Finish)
    );
    assert_eq!(store.len(), 2);
    assert_eq!(
        updater.start(&mut store, UpdateEvent::Selected("/v/one.mp4".to_string())),
        Ok(UpdateAction::Finish)
    );
    assert_eq!(store.len(), 2);
}

#[test]
fn a_turn_takes_only_what_the_state_waits_for() {
    let mut store = PairingStore::new();
    let mut updater = Updater::new("/v".to_string(), "/a".to_string());
    assert_eq!(
        updater.start(&mut store, UpdateEvent::Selected("/v/one.mp4".to_string())),
        Ok(UpdateAction::ScanVideos)
    );
    assert_eq!(
        updater.start(&mut store, UpdateEvent::Audio(Some(texts(&["/a/one.mp3"])))),
        Ok(UpdateAction::ScanVideos)
    );
    assert_eq!(updater.audio_found, None);
    assert_eq!(
        updater.start(&mut store, UpdateEvent::Videos(None)),
        Err(ScanError::NotADirectory)
    );
    assert_eq!(updater.current_state(), UpdateState::Unscanned);
    updater.start(&mut store, UpdateEvent::Videos(Some(texts(&["/v/one.mp4"])))).unwrap();
    assert_eq!(updater.start(&mut store, UpdateEvent::Audio(None)), Err(ScanError::NotADirectory));
    assert_eq!(
        updater.start(&mut store, UpdateEvent::Videos(Some(texts(&[])))),
        Ok(UpdateAction::ScanAudio)
    );
    assert_eq!(updater.mvs_found, Some(texts(&["/v/one.mp4"])));
    assert_eq!(
        updater.start(&mut store, UpdateEvent::Videos(Some(texts(&[])))),
        Ok(UpdateAction::ScanAudio)
    );
}
