use mvplayer::avmod::AudioVideoData;
use mvplayer::document::{
    read_document, read_outcome, write_document, write_outcome, LoadError, SaveError,
};
use mvplayer::store::PairEntry;
use mvplayer::store::PairingStore;
use std::cell::RefCell;
use std::collections::HashMap;
use std::path::Path;
use std::sync::Arc;

struct MyStruct {
    hmap: Arc<RefCell<PairingStore>>,
}

/// The files that exist, as the locations handed to the library.
fn create_file(present: &mut Vec<String>, file: &Path) {
    present.push(file.to_str().unwrap().to_string());
}

fn media_data(data_file: &str, video_dir: &str, audio_dir: &str) -> AudioVideoData {
    AudioVideoData::new(
        data_file,
        video_dir.to_string(),
        audio_dir.to_string(),
        PairingStore::new(),
        "".to_string(),
        "".to_string(),
    )
}

fn present_of(av_data: &AudioVideoData, document: &str, files: &[String]) -> Vec<String> {
    av_data
        .document_locations(Some(document))
        .unwrap()
        .into_iter()
        .filter(|location| files.contains(location))
        .collect()
}

#[test]
fn arc_refcell_test_1() {
    let hash_map = Arc::new(RefCell::new(PairingStore::new()));
    let hash_map2 = hash_map.clone();

    hash_map.borrow_mut().insert("test".to_string(), "test".to_string());
    hash_map2.borrow_mut().insert("test2".to_string(), "test2".to_string());

    assert!(hash_map.borrow().contains("test"));
    assert!(hash_map.borrow().contains("test2"));

    assert!(hash_map2.borrow().contains("test"));
    assert!(hash_map2.borrow().contains("test2"));
}

#[test]
fn arc_refcell_test_2() {
    let hash_map = Arc::new(RefCell::new(PairingStore::new()));
    let strct = MyStruct { hmap: hash_map };
    strct.hmap.borrow_mut().insert("test2".to_owned(), "test2".to_owned());
    assert!(strct.hmap.borrow().contains("test2"));
}

#[test]
fn test_save_data() {
    let temp_dir = Path::new("/tmp/test_save_data");
    let data_file = temp_dir.join("data.json");
    let mut av_data = media_data(data_file.to_str().unwrap(), "video", "audio");
    av_data.audio_video.insert("video/1.mp4".to_string(), "audio/1.mp3".to_string());
    av_data.audio_video.insert("video/2.mp4".to_string(), "audio/2.mp3".to_string());
    let data = av_data.save_data().unwrap();
    let read_data = serde_json::from_str::<HashMap<String, String>>(&data).unwrap();
    assert_eq!(read_data.len(), 2);
}

#[test]
fn test_load_data() {
    let temp_dir = Path::new("/tmp/test_load_data");
    let data_file = temp_dir.join("data.json");
    let video_dir = temp_dir.join("video");
    let audio_dir = temp_dir.join("audio");
    let video_file1 = video_dir.join("1.mp4");
    let audio_file1 = audio_dir.join("1.mp3");
    let mut files: Vec<String> = Vec::new();
    create_file(&mut files, &video_file1);
    create_file(&mut files, &audio_file1);
    let mut av_data = media_data(
        data_file.to_str().unwrap(),
        video_dir.to_str().unwrap(),
        audio_dir.to_str().unwrap(),
    );
    av_data.audio_video.insert(
        video_file1.to_str().unwrap().to_owned(),
        audio_file1.to_str().unwrap().to_owned(),
    );
    let document = av_data.save_data().unwrap();
    av_data.audio_video.clear();
    let present = present_of(&av_data, &document, &files);
    av_data.load_data(Some(&document), &present).unwrap();
    assert_eq!(av_data.audio_video.len(), 1);
}

#[test]
fn test_load_data_non_existent() {
    let temp_dir = Path::new("/tmp/test_load_data");
    let data_file = temp_dir.join("data.json");
    let video_dir = temp_dir.join("video");
    let audio_dir = temp_dir.join("audio");
    let video_file1 = video_dir.join("1.mp4");
    let audio_file1 = audio_dir.join("1.mp3");
    let files: Vec<String> = Vec::new();
    let mut av_data = media_data(
        data_file.to_str().unwrap(),
        video_dir.to_str().unwrap(),
        audio_dir.to_str().unwrap(),
    );
    av_data.audio_video.insert(
        video_file1.to_str().unwrap().to_owned(),
        audio_file1.to_str().unwrap().to_owned(),
    );
    let document = av_data.save_data().unwrap();
    av_data.audio_video.clear();
    let present = present_of(&av_data, &document, &files);
    av_data.load_data(Some(&document), &present).unwrap();
    assert_eq!(av_data.audio_video.len(), 0);
}

#[test]
fn store_insert_overwrites_the_pairing_of_a_key() {
    let mut store = PairingStore::new();
    store.insert("a.mp4".to_string(), "one.mp3".to_string());
    store.insert("b.mp4".to_string(), "two.mp3".to_string());
    store.insert("a.mp4".to_string(), "three.mp3".to_string());
    assert_eq!(store.len(), 2);
    assert_eq!(store.get("a.mp4"), Some("three.mp3".to_string()));
    assert_eq!(store.get("b.mp4"), Some("two.mp3".to_string()));
    assert_eq!(store.get("c.mp4"), None);
    assert!(!store.contains("c.mp4"));
    assert_eq!(store.video_at(0), "a.mp4");
    assert_eq!(store.audio_at(1), "two.mp3");
}

#[test]
fn store_snapshot_does_not_see_later_changes() {
    let mut store = PairingStore::new();
    store.insert("a.mp4".to_string(), "one.mp3".to_string());
    let snapshot = store.snapshot();
    store.insert("b.mp4".to_string(), "two.mp3".to_string());
    assert_eq!(snapshot.len(), 1);
    assert!(snapshot.contains("a.mp4"));
    assert!(!snapshot.contains("b.mp4"));
    assert_eq!(store.len(), 2);
}

#[test]
fn document_reads_an_object_of_strings() {
    let store = read_document("{\"b.mp4\": \"b.mp3\", \"a.mp4\": \"x/a.flac\"}").unwrap();
    assert_eq!(store.len(), 2);
    assert_eq!(store.get("a.mp4"), Some("x/a.flac".to_string()));
    assert_eq!(store.get("b.mp4"), Some("b.mp3".to_string()));
}

#[test]
fn document_refuses_what_is_no_object_of_strings() {
    assert_eq!(read_document("not json").err(), Some(LoadError::Malformed));
    assert_eq!(read_document("[\"a\", \"b\"]").err(), Some(LoadError::Malformed));
    assert_eq!(read_document("{\"a\": 1}").err(), Some(LoadError::Malformed));
    assert_eq!(read_document("").err(), Some(LoadError::Malformed));
}

#[test]
fn document_is_written_pretty_and_by_key() {
    let mut store = PairingStore::new();
    store.insert("b.mp4".to_string(), "b.mp3".to_string());
    store.insert("a.mp4".to_string(), "a \"quoted\".mp3".to_string());
    let text = write_document(&store).unwrap();
    assert_eq!(
        text,
        "{\n  \"a.mp4\": \"a \\\"quoted\\\".mp3\",\n  \"b.mp4\": \"b.mp3\"\n}"
    );
    let back = read_document(&text).unwrap();
    assert_eq!(back.len(), 2);
    assert_eq!(back.get("a.mp4"), Some("a \"quoted\".mp3".to_string()));
}

#[test]
fn empty_store_is_written_as_an_empty_object() {
    let store = PairingStore::new();
    assert_eq!(write_document(&store).unwrap(), "{}");
    assert_eq!(read_document("{}").unwrap().len(), 0);
}

#[test]
fn load_fails_on_a_document_that_could_not_be_read() {
    let mut av_data = media_data("data.json", "/v", "/a");
    av_data.audio_video.insert("/v/kept.mp4".to_string(), "/a/kept.mp3".to_string());
    assert_eq!(av_data.load_data(None, &vec![]), Err(LoadError::Unreadable));
    assert_eq!(av_data.document_locations(None), Err(LoadError::Unreadable));
    assert_eq!(av_data.audio_video.len(), 1);
}

#[test]
fn load_fails_on_a_malformed_document() {
    let mut av_data = media_data("data.json", "/v", "/a");
    assert_eq!(av_data.load_data(Some("{"), &vec![]), Err(LoadError::Malformed));
    assert_eq!(av_data.document_locations(Some("{")), Err(LoadError::Malformed));
    assert_eq!(av_data.audio_video.len(), 0);
}

#[test]
fn load_resolves_identities_under_the_roots() {
    let mut av_data = media_data("data.json", "/v", "/a/");
    let document = "{\"one.mp4\": \"sub/one.mp3\", \"/abs/two.mp4\": \"two.mp3\"}";
    let mut locations = av_data.document_locations(Some(document)).unwrap();
    locations.sort();
    assert_eq!(
        locations,
        vec!["/a/sub/one.mp3", "/a/two.mp3", "/abs/two.mp4", "/v/one.mp4"]
    );
    av_data.load_data(Some(document), &locations).unwrap();
    assert_eq!(av_data.audio_video.len(), 2);
    assert_eq!(av_data.audio_video.get("/v/one.mp4"), Some("/a/sub/one.mp3".to_string()));
    assert_eq!(av_data.audio_video.get("/abs/two.mp4"), Some("/a/two.mp3".to_string()));
}

#[test]
fn load_prunes_an_entry_whose_audio_is_missing() {
    let mut av_data = media_data("data.json", "/v", "/a");
    let document = "{\"one.mp4\": \"one.mp3\", \"two.mp4\": \"two.mp3\"}";
    let present = vec![
        "/v/one.mp4".to_string(),
        "/v/two.mp4".to_string(),
        "/a/two.mp3".to_string(),
    ];
    av_data.load_data(Some(document), &present).unwrap();
    assert!(!av_data.audio_video.contains("/v/one.mp4"));
    assert!(av_data.audio_video.contains("/v/two.mp4"));
    assert_eq!(av_data.audio_video.len(), 1);
}

#[test]
fn load_prunes_an_entry_whose_video_is_missing() {
    let mut av_data = media_data("data.json", "/v", "/a");
    let document = "{\"one.mp4\": \"one.mp3\"}";
    let present = vec!["/a/one.mp3".to_string()];
    av_data.load_data(Some(document), &present).unwrap();
    assert_eq!(av_data.audio_video.len(), 0);
}

#[test]
fn load_keeps_what_the_store_held() {
    let mut av_data = media_data("data.json", "/v", "/a");
    av_data.audio_video.insert("/v/old.mp4".to_string(), "/a/old.mp3".to_string());
    av_data.audio_video.insert("/v/one.mp4".to_string(), "/a/before.mp3".to_string());
    let document = "{\"one.mp4\": \"one.mp3\"}";
    let present = vec!["/v/one.mp4".to_string(), "/a/one.mp3".to_string()];
    av_data.load_data(Some(document), &present).unwrap();
    assert_eq!(av_data.audio_video.len(), 2);
    assert_eq!(av_data.audio_video.get("/v/old.mp4"), Some("/a/old.mp3".to_string()));
    assert_eq!(av_data.audio_video.get("/v/one.mp4"), Some("/a/one.mp3".to_string()));
}

#[test]
fn save_strips_the_roots() {
    let mut av_data = media_data("data.json", "/v", "/a");
    av_data.audio_video.insert("/v/one.mp4".to_string(), "/a/sub/one.mp3".to_string());
    let text = av_data.save_data().unwrap();
    assert_eq!(text, "{\n  \"one.mp4\": \"sub/one.mp3\"\n}");
}

#[test]
fn save_then_load_gives_the_same_pairs() {
    let mut av_data = media_data("data.json", "/videos", "/music");
    let pairs = [
        ("/videos/b - live (2020).mp4", "/music/b/live.flac"),
        ("/videos/a.mkv", "/music/a.mp3"),
        ("/videos/sub/c.webm", "/music/c \"x\".ogg"),
    ];
    for (video, audio) in pairs.iter() {
        av_data.audio_video.insert(video.to_string(), audio.to_string());
    }
    let text = av_data.save_data().unwrap();
    let mut fresh = media_data("data.json", "/videos", "/music");
    let present = fresh.document_locations(Some(&text)).unwrap();
    fresh.load_data(Some(&text), &present).unwrap();
    assert_eq!(fresh.audio_video.len(), pairs.len());
    for (video, audio) in pairs.iter() {
        assert_eq!(fresh.audio_video.get(video), Some(audio.to_string()));
    }
}

fn json_error() -> serde_json::Error {
    serde_json::from_str::<HashMap<String, String>>("[").unwrap_err()
}

#[test]
fn a_failure_of_the_parser_is_a_malformed_document() {
    assert_eq!(read_outcome(Err(json_error())).err(), Some(LoadError::Malformed));
}

#[test]
fn the_entries_of_the_parser_become_the_store() {
    let entries = vec![
        PairEntry { video_identity: "a".to_string(), audio_identity: "1".to_string() },
        PairEntry { video_identity: "b".to_string(), audio_identity: "2".to_string() },
        PairEntry { video_identity: "a".to_string(), audio_identity: "3".to_string() },
    ];
    let store = read_outcome(Ok(entries)).unwrap();
    assert_eq!(store.len(), 2);
    assert_eq!(store.get("a"), Some("3".to_string()));
    assert_eq!(store.get("b"), Some("2".to_string()));
}

#[test]
fn a_failure_of_the_serializer_fails_the_saving() {
    assert_eq!(write_outcome(Err(json_error())), Err(SaveError::Unserializable));
    assert!(write_document(&PairingStore::new()).is_ok());
    assert_eq!(write_outcome(Ok("{}".to_string())), Ok("{}".to_string()));
}

#[test]
fn store_remove_takes_one_pairing_out() {
    let mut store = PairingStore::new();
    store.insert("a.mp4".to_string(), "one.mp3".to_string());
    store.insert("b.mp4".to_string(), "two.mp3".to_string());
    store.insert("c.mp4".to_string(), "three.mp3".to_string());
    assert_eq!(store.remove("b.mp4"), Some("two.mp3".to_string()));
    assert_eq!(store.remove("b.mp4"), None);
    assert_eq!(store.len(), 2);
    assert!(!store.contains("b.mp4"));
    assert_eq!(store.video_at(0), "a.mp4");
    assert_eq!(store.video_at(1), "c.mp4");
    assert_eq!(store.get("c.mp4"), Some("three.mp3".to_string()));
    store.clear();
    assert_eq!(store.len(), 0);
}

#[test]
fn the_document_holds_identities_relative_to_the_roots() {
    let mut av_data = media_data("data.json", "/v", "/a/");
    av_data.audio_video.insert("/v/one.mp4".to_string(), "/a/sub/one.mp3".to_string());
    av_data.audio_video.insert("/else/two.mp4".to_string(), "/a/two.mp3".to_string());
    let document = av_data.document();
    assert_eq!(document.len(), 2);
    assert_eq!(document.get("one.mp4"), Some("sub/one.mp3".to_string()));
    assert_eq!(document.get("/else/two.mp4"), Some("two.mp3".to_string()));
    assert_eq!(media_data("data.json", "/v", "/a").document().len(), 0);
}
