use mvplayer::config::Config;
use mvplayer::avmod::Sorting;
use mvplayer::media_player::{
    command_line, monitor_step, MediaKind, MediaPlayer, MonitorAction, MonitorState, PlayerAction,
};

fn texts(list: &[&str]) -> Vec<String> {
    list.iter().map(|s| s.to_string()).collect()
}

fn kinds(steps: &[PlayerAction]) -> Vec<(bool, MediaKind)> {
    steps
        .iter()
        .map(|step| match step {
            PlayerAction::Cancel(kind) => (false, *kind),
            PlayerAction::Spawn(kind, _) => (true, *kind),
        })
        .collect()
}

#[test]
fn the_template_is_cut_at_commas_and_the_media_comes_last() {
    let command = command_line("mpv,--fs,--no-audio", "/v/a b.mp4".to_string(), true);
    assert_eq!(command.program, "mpv");
    assert_eq!(command.args, texts(&["--fs", "--no-audio", "/v/a b.mp4"]));
    assert!(command.quiet);
    let command = command_line("vlc", "x".to_string(), false);
    assert_eq!(command.program, "vlc");
    assert_eq!(command.args, texts(&["x"]));
    assert!(!command.quiet);
    let command = command_line("", "x".to_string(), false);
    assert_eq!(command.program, "");
    assert_eq!(command.args, texts(&["x"]));
    let command = command_line("a,,b,", "x".to_string(), false);
    assert_eq!(command.program, "a");
    assert_eq!(command.args, texts(&["", "b", "", "x"]));
}

#[test]
fn the_first_request_starts_both_processes() {
    let mut player = MediaPlayer::new("mpv,--fs".to_string(), "mpv,--no-video".to_string());
    let steps = player.play_media("/a/one.mp3".to_string(), "/v/one.mp4".to_string());
    assert_eq!(kinds(&steps), vec![(true, MediaKind::Audio), (true, MediaKind::Video)]);
    match &steps[0] {
        PlayerAction::Spawn(_, command) => {
            assert_eq!(command.program, "mpv");
            assert_eq!(command.args, texts(&["--no-video", "/a/one.mp3"]));
            assert!(!command.quiet);
        }
        PlayerAction::Cancel(_) => panic!("nothing to cancel"),
    }
    match &steps[1] {
        PlayerAction::Spawn(_, command) => {
            assert_eq!(command.program, "mpv");
            assert_eq!(command.args, texts(&["--fs", "/v/one.mp4"]));
            assert!(command.quiet);
        }
        PlayerAction::Cancel(_) => panic!("nothing to cancel"),
    }
}

#[test]
fn preemption() {
    let mut player = MediaPlayer::new("mpv".to_string(), "mpv".to_string());
    let mut audio_left = 0;
    let mut video_left = 0;
    for round in 0..4 {
        let steps = player.play_media(format!("/a/{}.mp3", round), format!("/v/{}.mp4", round));
        let mut started = false;
        for step in steps.iter() {
            match step {
                PlayerAction::Cancel(kind) => {
                    assert!(!started, "a cancellation after a start");
                    match kind {
                        MediaKind::Audio => audio_left -= 1,
                        MediaKind::Video => video_left -= 1,
                    }
                }
                PlayerAction::Spawn(kind, _) => {
                    started = true;
                    match kind {
                        MediaKind::Audio => audio_left += 1,
                        MediaKind::Video => video_left += 1,
                    }
                }
            }
        }
        assert_eq!(steps.len(), if round == 0 { 2 } else { 4 });
        assert_eq!(audio_left, 1);
        assert_eq!(video_left, 1);
    }
}

#[test]
fn the_second_request_cancels_before_it_starts() {
    let mut player = MediaPlayer::new("mpv".to_string(), "mpv".to_string());
    player.play_media("/a/one.mp3".to_string(), "/v/one.mp4".to_string());
    let steps = player.play_media("/a/two.mp3".to_string(), "/v/two.mp4".to_string());
    assert_eq!(
        kinds(&steps),
        vec![
            (false, MediaKind::Audio),
            (false, MediaKind::Video),
            (true, MediaKind::Audio),
            (true, MediaKind::Video)
        ]
    );
}

#[test]
fn the_monitor_polls_sleeps_and_ends() {
    assert_eq!(
        monitor_step(MonitorState::Polling, false),
        (MonitorState::Waiting, MonitorAction::Sleep)
    );
    assert_eq!(
        monitor_step(MonitorState::Polling, true),
        (MonitorState::Finished, MonitorAction::Stop)
    );
    assert_eq!(
        monitor_step(MonitorState::Waiting, false),
        (MonitorState::Polling, MonitorAction::Poll)
    );
    assert_eq!(
        monitor_step(MonitorState::Waiting, true),
        (MonitorState::Finished, MonitorAction::Kill)
    );
    assert_eq!(
        monitor_step(MonitorState::Finished, true),
        (MonitorState::Finished, MonitorAction::Stop)
    );
    assert_eq!(
        monitor_step(MonitorState::Finished, false),
        (MonitorState::Finished, MonitorAction::Stop)
    );
}

#[test]
fn the_configuration_gives_the_media_data() {
    let config = Config {
        data_file: "avinfo.json".to_string(),
        video_dir: "/v".to_string(),
        audio_dir: "/a".to_string(),
        video_cmd: "mpv,--fs".to_string(),
        audio_cmd: "mpv,--no-video".to_string(),
    };
    let mut av_data = config.media_data();
    assert_eq!(av_data.data_file, "avinfo.json");
    assert_eq!(av_data.video_dir, "/v");
    assert_eq!(av_data.audio_dir, "/a");
    assert_eq!(av_data.audio_video.len(), 0);
    assert_eq!(av_data.sorting, Sorting::Descending);
    assert!(av_data.play_media("a.mp4").is_none());
    av_data.audio_video.insert("/v/a.mp4".to_string(), "/a/a.flac".to_string());
    let steps = av_data.play_media("a.mp4").unwrap();
    match &steps[0] {
        PlayerAction::Spawn(kind, command) => {
            assert_eq!(*kind, MediaKind::Audio);
            assert_eq!(command.args, texts(&["--no-video", "/a/a.flac"]));
        }
        PlayerAction::Cancel(_) => panic!("nothing to cancel"),
    }
    match &steps[1] {
        PlayerAction::Spawn(kind, command) => {
            assert_eq!(*kind, MediaKind::Video);
            assert_eq!(command.args, texts(&["--fs", "/v/a.mp4"]));
        }
        PlayerAction::Cancel(_) => panic!("nothing to cancel"),
    }
}
