//! The streamer's control surface and supervision decisions.
//!
//! The UI drives a small state machine: start spawns the streaming and
//! recording tasks, stop signals them and waits for the cleanup
//! acknowledgement. A supervisor watches the pipeline tasks and decides
//! between a UI-driven stop and an unexpected finish; the outbound send
//! loop gives up when its queue backs up past the tolerated count.

use vstd::prelude::*;

use crate::config::Config;
use crate::sample::MAX_TOLERATED_MESSAGE_COUNT;

verus! {

/// A message from the UI to the streamer control.
pub enum Message {
    /// Connect and start streaming.
    StartStreaming,
    /// Stop streaming and clean up.
    StopStreaming,
    /// The configuration was loaded.
    ConfigLoad(Config),
}

/// One action the runtime carries out for the streamer control.
#[derive(Clone, Copy, Debug, PartialEq, Eq, Structural)]
pub enum StreamerAction {
    /// Connect to the relay and spawn the mixer, packer and send tasks.
    SpawnStreaming,
    /// Spawn the microphone capture task.
    SpawnRecording,
    /// Announce that a cleaning handshake is under way.
    SignalCleaning,
    /// Tell the streaming tasks to stop.
    SignalStopConnection,
    /// Tell the recording task to stop.
    SignalStopRecording,
    /// Wait until the cleaning announcement is acknowledged.
    AwaitCleaning,
}

/// The streamer's control state.
pub struct Streamer {
    /// The loaded configuration, if any.
    pub config: Option<Config>,
    /// Whether the pipeline is running.
    pub are_we_streaming: bool,
    /// Whether a start or stop is currently being carried out.
    pub are_we_recovering: bool,
}

impl Streamer {
    /// A control with nothing loaded and nothing running.
    pub fn new() -> (s: Streamer)
        ensures
            s.config is None,
            !s.are_we_streaming,
            !s.are_we_recovering,
    {
        Streamer { config: None, are_we_streaming: false, are_we_recovering: false }
    }

    /// Reacts to one UI message. Starting is ignored while already
    /// streaming or recovering, stopping while not streaming; a start needs
    /// a loaded configuration.
    pub fn update(&mut self, message: Message) -> (actions: Vec<StreamerAction>)
        requires
            old(self).config is Some || !(message is StartStreaming),
        ensures
            message is StartStreaming && !old(self).are_we_streaming && !old(self).are_we_recovering ==> final(self).are_we_streaming && !final(self).are_we_recovering
                && final(self).config == old(self).config && actions@ =~= seq![
                StreamerAction::SpawnStreaming,
                StreamerAction::SpawnRecording,
            ],
            message is StopStreaming && old(self).are_we_streaming && !old(self).are_we_recovering ==> !final(self).are_we_streaming && !final(self).are_we_recovering
                && final(self).config == old(self).config && actions@ =~= seq![
                StreamerAction::SignalCleaning,
                StreamerAction::SignalStopConnection,
                StreamerAction::SignalStopRecording,
                StreamerAction::AwaitCleaning,
            ],
            (message matches Message::ConfigLoad(c) ==> final(self).config == Some(c) && final(self).are_we_streaming == old(self).are_we_streaming && final(self).are_we_recovering
                == old(self).are_we_recovering && actions@ =~= Seq::<StreamerAction>::empty()),
            message is StartStreaming && (old(self).are_we_streaming || old(self).are_we_recovering) ==> *final(self) == *old(self) && actions@ =~= Seq::<
                StreamerAction,
            >::empty(),
            message is StopStreaming && (!old(self).are_we_streaming || old(self).are_we_recovering) ==> *final(self) == *old(self) && actions@ =~= Seq::<
                StreamerAction,
            >::empty(),
    {
        let mut actions: Vec<StreamerAction> = Vec::new();
        match message {
            Message::StartStreaming => {
                if !self.are_we_recovering && !self.are_we_streaming {
                    self.are_we_recovering = true;
                    self.are_we_streaming = true;
                    actions.push(StreamerAction::SpawnStreaming);
                    actions.push(StreamerAction::SpawnRecording);
                    self.are_we_recovering = false;
                }
            },
            Message::StopStreaming => {
                if !self.are_we_recovering && self.are_we_streaming {
                    self.are_we_recovering = true;
                    self.are_we_streaming = false;
                    actions.push(StreamerAction::SignalCleaning);
                    actions.push(StreamerAction::SignalStopConnection);
                    actions.push(StreamerAction::SignalStopRecording);
                    actions.push(StreamerAction::AwaitCleaning);
                    self.are_we_recovering = false;
                }
            },
            Message::ConfigLoad(config) => {
                self.config = Some(config);
            },
        }
        actions
    }
}

/// What the streamer's supervisor observes each round.
#[derive(Clone, Copy, Debug, PartialEq, Eq, Structural)]
pub enum SupervisorEvent {
    /// The UI asked to stop.
    UiStop,
    /// The send task finished unexpectedly.
    StreamTaskFinished,
    /// The mixer task finished unexpectedly.
    MixerTaskFinished,
    /// The packer task finished unexpectedly.
    OrganizerTaskFinished,
    /// Every task still runs.
    AllRunning,
}

/// The supervisor's decision.
#[derive(Clone, Copy, Debug, PartialEq, Eq, Structural)]
pub enum SupervisorVerdict {
    /// Check again after the next pause.
    KeepRunning,
    /// Abort the tasks and acknowledge a UI-driven stop.
    CleanStopped,
    /// Abort the tasks and report an unexpected finish.
    CleanFinished,
}

/// One supervision round: a UI stop ends the pipeline cleanly; any task
/// found finished is a problem and is reported as such; otherwise the
/// pipeline keeps running.
pub fn supervise(event: SupervisorEvent) -> (verdict: SupervisorVerdict)
    ensures
        event is UiStop ==> verdict is CleanStopped,
        event is StreamTaskFinished || event is MixerTaskFinished || event
            is OrganizerTaskFinished ==> verdict is CleanFinished,
        event is AllRunning ==> verdict is KeepRunning,
{
    match event {
        SupervisorEvent::UiStop => SupervisorVerdict::CleanStopped,
        SupervisorEvent::AllRunning => SupervisorVerdict::KeepRunning,
        _ => SupervisorVerdict::CleanFinished,
    }
}

/// Backpressure at the outbound socket: the send loop gives up when its
/// queue depth exceeds the tolerated message count.
pub fn should_abort_send(queue_len: usize) -> (r: bool)
    ensures
        r == (queue_len > MAX_TOLERATED_MESSAGE_COUNT),
{
    queue_len > MAX_TOLERATED_MESSAGE_COUNT
}

/// A playback command between the UI and the player task.
#[derive(Clone, Copy, Debug, PartialEq, Eq, Structural)]
pub enum Player {
    /// Play, or resume.
    Play,
    /// Pause.
    Pause,
    /// Stop and tear the player down.
    Stop,
}

/// The UI-visible state a control handshake settles on.
#[derive(Clone, Copy, Debug, PartialEq, Eq, Structural)]
pub enum State {
    /// The streamer is connected to the relay.
    Connected,
    /// The streamer is not connected.
    Disconnected,
    /// The microphone is being captured.
    Recording,
    /// The microphone is not being captured.
    StopRecording,
    /// The stored audio is playing.
    PlayingAudio,
    /// The stored audio is paused.
    PausedAudio,
    /// The stored audio is stopped.
    StopAudio,
    /// The microphone gain was changed.
    MicrophoneVolumeChanged,
    /// The audio gain was changed.
    AudioVolumeChanged,
}

/// The state a player answer stands for.
pub fn state_for_player(p: Player) -> (s: State)
    ensures
        p is Play ==> s is PlayingAudio,
        p is Pause ==> s is PausedAudio,
        p is Stop ==> s is StopAudio,
{
    match p {
        Player::Play => State::PlayingAudio,
        Player::Pause => State::PausedAudio,
        Player::Stop => State::StopAudio,
    }
}

/// What a playing-control handshake settles on: the state the player
/// answered, or the given fallback when the answer channel is gone.
pub fn player_answer_state(answer: Option<Player>, fallback: State) -> (s: State)
    ensures
        answer matches Some(p) ==> s == (match p {
            Player::Play => State::PlayingAudio,
            Player::Pause => State::PausedAudio,
            Player::Stop => State::StopAudio,
        }),
        answer is None ==> s == fallback,
{
    match answer {
        Some(p) => state_for_player(p),
        None => fallback,
    }
}

/// What a start/stop handshake settles on: the state that was asked for
/// when the task acknowledged, the other one when the channel is gone.
pub fn handshake_state(acknowledged: bool, on_answer: State, on_lost: State) -> (s: State)
    ensures
        acknowledged ==> s == on_answer,
        !acknowledged ==> s == on_lost,
{
    if acknowledged {
        on_answer
    } else {
        on_lost
    }
}

} // verus!
