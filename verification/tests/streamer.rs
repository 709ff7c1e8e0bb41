use radioxide::config::Config;
use radioxide::playback::{should_decode_now, PlaybackBuffer};
use radioxide::sample::{BUFFER_LENGTH, BUFFER_LIMIT};
use radioxide::status::{coin_status_from_flip, flip_coin, server_status_from_probe, Coin, Server};
use radioxide::streamer::{
    handshake_state, player_answer_state, should_abort_send, state_for_player, supervise, Message,
    Player, State, Streamer, StreamerAction, SupervisorEvent, SupervisorVerdict,
};

fn test_config() -> Config {
    Config { address: String::from("127.0.0.1:2525"), quality: 4, latency: 50, tls: false }
}

#[test]
fn start_spawns_streaming_and_recording() {
    let mut control = Streamer::new();
    let none = control.update(Message::ConfigLoad(test_config()));
    assert!(none.is_empty());
    let actions = control.update(Message::StartStreaming);
    assert_eq!(actions, vec![StreamerAction::SpawnStreaming, StreamerAction::SpawnRecording]);
    assert!(control.are_we_streaming);
    // a second start while streaming is ignored
    assert!(control.update(Message::StartStreaming).is_empty());
}

#[test]
fn stop_signals_every_task_and_waits() {
    let mut control = Streamer::new();
    let _ = control.update(Message::ConfigLoad(test_config()));
    let _ = control.update(Message::StartStreaming);
    let actions = control.update(Message::StopStreaming);
    assert_eq!(
        actions,
        vec![
            StreamerAction::SignalCleaning,
            StreamerAction::SignalStopConnection,
            StreamerAction::SignalStopRecording,
            StreamerAction::AwaitCleaning,
        ]
    );
    assert!(!control.are_we_streaming);
    // stopping again does nothing
    assert!(control.update(Message::StopStreaming).is_empty());
}

#[test]
fn supervisor_tells_stop_from_failure() {
    assert_eq!(supervise(SupervisorEvent::UiStop), SupervisorVerdict::CleanStopped);
    assert_eq!(supervise(SupervisorEvent::StreamTaskFinished), SupervisorVerdict::CleanFinished);
    assert_eq!(supervise(SupervisorEvent::MixerTaskFinished), SupervisorVerdict::CleanFinished);
    assert_eq!(supervise(SupervisorEvent::OrganizerTaskFinished), SupervisorVerdict::CleanFinished);
    assert_eq!(supervise(SupervisorEvent::AllRunning), SupervisorVerdict::KeepRunning);
}

#[test]
fn send_loop_gives_up_past_the_tolerated_backlog() {
    assert!(!should_abort_send(10));
    assert!(should_abort_send(11));
}

#[test]
fn player_states_map_to_ui_states() {
    assert_eq!(state_for_player(Player::Play), State::PlayingAudio);
    assert_eq!(state_for_player(Player::Pause), State::PausedAudio);
    assert_eq!(state_for_player(Player::Stop), State::StopAudio);
    assert_eq!(player_answer_state(Some(Player::Pause), State::PlayingAudio), State::PausedAudio);
    assert_eq!(player_answer_state(None, State::PlayingAudio), State::PlayingAudio);
    assert_eq!(handshake_state(true, State::Recording, State::StopRecording), State::Recording);
    assert_eq!(handshake_state(false, State::Recording, State::StopRecording), State::StopRecording);
}

#[test]
fn playback_plays_in_order_and_pads_with_silence() {
    let mut buffer = PlaybackBuffer::new();
    buffer.push(10);
    buffer.push(20);
    assert_eq!(buffer.len(), 2);
    assert_eq!(buffer.pop_or_silence(), 10);
    assert_eq!(buffer.pop_or_silence(), 20);
    assert_eq!(buffer.pop_or_silence(), 0);
}

#[test]
fn playback_overflow_drops_everything_at_once() {
    let mut buffer = PlaybackBuffer::new();
    for _ in 0..BUFFER_LIMIT {
        buffer.push(1);
    }
    assert!(!buffer.maintain());
    assert_eq!(buffer.len(), BUFFER_LIMIT);
    buffer.push(1);
    assert!(buffer.maintain());
    assert_eq!(buffer.len(), 0);
}

#[test]
fn decoding_is_throttled_above_half_the_buffer() {
    assert!(should_decode_now(0));
    assert!(should_decode_now(BUFFER_LENGTH / 2 - 1));
    assert!(!should_decode_now(BUFFER_LENGTH / 2));
    assert!(!should_decode_now(BUFFER_LENGTH));
}

#[test]
fn status_labels_match_their_states() {
    let mut s = Server::Alive;
    assert_eq!(s.to_string(), "Alive");
    let mut s = Server::Unstable;
    assert_eq!(s.to_string(), "Unstable");
    let mut s = Server::Dead;
    assert_eq!(s.to_string(), "Dead");
    let mut c = Coin::Head;
    assert_eq!(c.to_string(), "Head");
    let mut c = Coin::Tail;
    assert_eq!(c.to_string(), "Tail");
    let mut c = Coin::Dead;
    assert_eq!(c.to_string(), "Dead");
}

#[test]
fn probe_answers_settle_the_server_status() {
    assert_eq!(server_status_from_probe(true).status, Server::Alive);
    assert_eq!(server_status_from_probe(false).status, Server::Dead);
}

#[test]
fn coin_flips_are_heads_or_tails() {
    assert_eq!(coin_status_from_flip(true).status, Coin::Head);
    assert_eq!(coin_status_from_flip(false).status, Coin::Tail);
    for _ in 0..16 {
        let c = flip_coin();
        assert!(c.status == Coin::Head || c.status == Coin::Tail);
    }
}
