//! The playback controller: what to cancel and what to start for a playback
//! request, and what a process monitor does on each observation.

use crate::text::{split_on, split_text};
use vstd::prelude::*;

verus! {

/// The two processes of a playback session.
#[derive(Debug, Clone, Copy, PartialEq, Eq, Structural)]
pub enum MediaKind {
    Audio,
    Video,
}

/// A process to start: the program, its arguments, and whether its output is
/// discarded.
#[derive(Debug)]
pub struct CommandLine {
    pub program: String,
    pub args: Vec<String>,
    pub quiet: bool,
}

/// A command line as plain text.
pub struct CommandView {
    pub program: Seq<char>,
    pub args: Seq<Seq<char>>,
    pub quiet: bool,
}

impl DeepView for CommandLine {
    type V = CommandView;

    open spec fn deep_view(&self) -> CommandView {
        CommandView { program: self.program@, args: self.args.deep_view(), quiet: self.quiet }
    }
}

/// One step that the caller carries out for a playback request.
#[derive(Debug)]
pub enum PlayerAction {
    /// Signal the monitor of the running process of this kind to end it.
    Cancel(MediaKind),
    /// Start a process of this kind and a monitor for it.
    Spawn(MediaKind, CommandLine),
}

/// A step as plain text.
pub enum ActionView {
    Cancel(MediaKind),
    Spawn(MediaKind, CommandView),
}

impl DeepView for PlayerAction {
    type V = ActionView;

    open spec fn deep_view(&self) -> ActionView {
        match self {
            PlayerAction::Cancel(kind) => ActionView::Cancel(*kind),
            PlayerAction::Spawn(kind, command) => ActionView::Spawn(*kind, command.deep_view()),
        }
    }
}

/// The command line that a template gives for a media file: the template is
/// cut at its commas, the first piece is the program, the others are its
/// arguments, and the media file is the last argument.
pub open spec fn command_of(template: Seq<char>, media: Seq<char>, quiet: bool) -> CommandView {
    let pieces = split_on(template, ',');
    CommandView { program: pieces[0], args: pieces.skip(1).push(media), quiet }
}

/// The command line that `template` gives for the media file `media`.
pub fn command_line(template: &str, media: String, quiet: bool) -> (r: CommandLine)
    ensures
        r.deep_view() == command_of(template@, media@, quiet),
{
    let mut pieces = split_text(template, ',');
    proof {
        crate::text::lemma_split_on_nonempty(template@, ',');
    }
    let ghost all = pieces.deep_view();
    let program = pieces.remove(0);
    assert(pieces.deep_view() =~= all.skip(1));
    let ghost rest = pieces.deep_view();
    pieces.push(media);
    assert(pieces.deep_view() =~= rest.push(media@));
    CommandLine { program, args: pieces, quiet }
}

/// The state of the controller as plain values.
pub struct PlayerView {
    pub audio_live: bool,
    pub video_live: bool,
    pub video_cmd: Seq<char>,
    pub audio_cmd: Seq<char>,
}

/// The steps of a playback request, in the order in which they are carried
/// out: the cancellations of the previous session come before the new
/// processes are started.
pub open spec fn play_plan(player: PlayerView, audio: Seq<char>, video: Seq<char>) -> Seq<
    ActionView,
> {
    let cancel_audio = if player.audio_live {
        seq![ActionView::Cancel(MediaKind::Audio)]
    } else {
        Seq::<ActionView>::empty()
    };
    let cancel_video = if player.video_live {
        seq![ActionView::Cancel(MediaKind::Video)]
    } else {
        Seq::<ActionView>::empty()
    };
    cancel_audio + cancel_video + seq![
        ActionView::Spawn(MediaKind::Audio, command_of(player.audio_cmd, audio, false)),
        ActionView::Spawn(MediaKind::Video, command_of(player.video_cmd, video, true)),
    ]
}

/// The controller after a playback request: a session of both kinds is live.
pub open spec fn after_play(player: PlayerView) -> PlayerView {
    PlayerView { audio_live: true, video_live: true, ..player }
}

/// The number of processes of `kind` that `trace` has started and not yet
/// signalled to end. A cancellation goes to the process started last.
pub open spec fn unanswered(trace: Seq<ActionView>, kind: MediaKind) -> int
    decreases trace.len(),
{
    if trace.len() == 0 {
        0
    } else {
        let before = unanswered(trace.drop_last(), kind);
        match trace.last() {
            ActionView::Spawn(k, _) => if k == kind {
                before + 1
            } else {
                before
            },
            ActionView::Cancel(k) => if k == kind && before > 0 {
                before - 1
            } else {
                before
            },
        }
    }
}

/// The controller `player` has issued the steps of `trace`: it holds a live
/// session of a kind exactly when one process of that kind is unanswered, and
/// there is never more than one.
pub open spec fn in_step(player: PlayerView, trace: Seq<ActionView>) -> bool {
    &&& unanswered(trace, MediaKind::Audio) == if player.audio_live {
        1int
    } else {
        0int
    }
    &&& unanswered(trace, MediaKind::Video) == if player.video_live {
        1int
    } else {
        0int
    }
}

proof fn lemma_unanswered_push(trace: Seq<ActionView>, action: ActionView, kind: MediaKind)
    ensures
        unanswered(trace.push(action), kind) == match action {
            ActionView::Spawn(k, _) => if k == kind {
                unanswered(trace, kind) + 1
            } else {
                unanswered(trace, kind)
            },
            ActionView::Cancel(k) => if k == kind && unanswered(trace, kind) > 0 {
                unanswered(trace, kind) - 1
            } else {
                unanswered(trace, kind)
            },
        },
{
    assert(trace.push(action).drop_last() =~= trace);
}

/// Preemption: however many playback requests were made, after each of them at
/// most one audio process and at most one video process has not been
/// signalled to end.
pub proof fn lemma_preemption(
    player: PlayerView,
    trace: Seq<ActionView>,
    audio: Seq<char>,
    video: Seq<char>,
)
    requires
        in_step(player, trace),
    ensures
        in_step(after_play(player), trace + play_plan(player, audio, video)),
        unanswered(trace + play_plan(player, audio, video), MediaKind::Audio) == 1,
        unanswered(trace + play_plan(player, audio, video), MediaKind::Video) == 1,
{
    let spawn_audio = ActionView::Spawn(
        MediaKind::Audio,
        command_of(player.audio_cmd, audio, false),
    );
    let spawn_video = ActionView::Spawn(MediaKind::Video, command_of(player.video_cmd, video, true));
    let cancel_audio = ActionView::Cancel(MediaKind::Audio);
    let cancel_video = ActionView::Cancel(MediaKind::Video);
    let t1 = if player.audio_live {
        trace.push(cancel_audio)
    } else {
        trace
    };
    let t2 = if player.video_live {
        t1.push(cancel_video)
    } else {
        t1
    };
    let t3 = t2.push(spawn_audio);
    let t4 = t3.push(spawn_video);
    assert(trace + play_plan(player, audio, video) =~= t4);
    lemma_unanswered_push(trace, cancel_audio, MediaKind::Audio);
    lemma_unanswered_push(trace, cancel_audio, MediaKind::Video);
    lemma_unanswered_push(t1, cancel_video, MediaKind::Audio);
    lemma_unanswered_push(t1, cancel_video, MediaKind::Video);
    lemma_unanswered_push(t2, spawn_audio, MediaKind::Audio);
    lemma_unanswered_push(t2, spawn_audio, MediaKind::Video);
    lemma_unanswered_push(t3, spawn_video, MediaKind::Audio);
    lemma_unanswered_push(t3, spawn_video, MediaKind::Video);
}

/// The playback controller. It remembers whether it has started a session,
/// and the command templates of the two players.
pub struct MediaPlayer {
    audio_live: bool,
    video_live: bool,
    video_cmd: String,
    audio_cmd: String,
}

impl View for MediaPlayer {
    type V = PlayerView;

    closed spec fn view(&self) -> PlayerView {
        PlayerView {
            audio_live: self.audio_live,
            video_live: self.video_live,
            video_cmd: self.video_cmd@,
            audio_cmd: self.audio_cmd@,
        }
    }
}

impl MediaPlayer {
    /// A controller with the two command templates and no session.
    pub fn new(video_cmd: String, audio_cmd: String) -> (r: Self)
        ensures
            r@ == (PlayerView {
                audio_live: false,
                video_live: false,
                video_cmd: video_cmd@,
                audio_cmd: audio_cmd@,
            }),
            in_step(r@, Seq::<ActionView>::empty()),
    {
        MediaPlayer { audio_live: false, video_live: false, video_cmd, audio_cmd }
    }

    /// The steps that play the pair `audio_path` and `video_path`: first the
    /// cancellation of the session that is live, then the two new processes.
    pub fn play_media(&mut self, audio_path: String, video_path: String) -> (r: Vec<PlayerAction>)
        ensures
            r.deep_view() == play_plan(old(self)@, audio_path@, video_path@),
            final(self)@ == after_play(old(self)@),
    {
        let mut steps: Vec<PlayerAction> = Vec::new();
        if self.audio_live {
            steps.push(PlayerAction::Cancel(MediaKind::Audio));
        }
        if self.video_live {
            steps.push(PlayerAction::Cancel(MediaKind::Video));
        }
        let audio = command_line(self.audio_cmd.as_str(), audio_path, false);
        let video = command_line(self.video_cmd.as_str(), video_path, true);
        steps.push(PlayerAction::Spawn(MediaKind::Audio, audio));
        steps.push(PlayerAction::Spawn(MediaKind::Video, video));
        self.audio_live = true;
        self.video_live = true;
        assert(steps.deep_view() =~= play_plan(old(self)@, audio_path@, video_path@));
        steps
    }
}

/// Where a process monitor stands.
#[derive(Debug, Clone, Copy, PartialEq, Eq, Structural)]
pub enum MonitorState {
    /// About to ask whether the process has ended.
    Polling,
    /// About to look for a cancellation, after the pause.
    Waiting,
    /// Done: the monitor has ended.
    Finished,
}

/// What a process monitor does next.
#[derive(Debug, Clone, Copy, PartialEq, Eq, Structural)]
pub enum MonitorAction {
    /// Pause for the polling interval, then look for a cancellation.
    Sleep,
    /// Ask whether the process has ended.
    Poll,
    /// End the process, then end the monitor.
    Kill,
    /// End the monitor and leave the process alone.
    Stop,
}

/// The transition of a monitor. While polling, `observed` says that the
/// process has ended; while waiting, that a cancellation has arrived.
pub open spec fn monitor_next(state: MonitorState, observed: bool) -> (MonitorState, MonitorAction) {
    match state {
        MonitorState::Polling => if observed {
            (MonitorState::Finished, MonitorAction::Stop)
        } else {
            (MonitorState::Waiting, MonitorAction::Sleep)
        },
        MonitorState::Waiting => if observed {
            (MonitorState::Finished, MonitorAction::Kill)
        } else {
            (MonitorState::Polling, MonitorAction::Poll)
        },
        MonitorState::Finished => (MonitorState::Finished, MonitorAction::Stop),
    }
}

/// One step of a process monitor.
pub fn monitor_step(state: MonitorState, observed: bool) -> (r: (MonitorState, MonitorAction))
    ensures
        r == monitor_next(state, observed),
{
    match state {
        MonitorState::Polling => if observed {
            (MonitorState::Finished, MonitorAction::Stop)
        } else {
            (MonitorState::Waiting, MonitorAction::Sleep)
        },
        MonitorState::Waiting => if observed {
            (MonitorState::Finished, MonitorAction::Kill)
        } else {
            (MonitorState::Polling, MonitorAction::Poll)
        },
        MonitorState::Finished => (MonitorState::Finished, MonitorAction::Stop),
    }
}

} // verus!
