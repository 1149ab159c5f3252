use spotify_rust::player::{EngineCall, PlayerEventMsg, PlayerInput, PlayerLoop};

#[test]
fn load_resets_position_and_reports() {
    let mut p = PlayerLoop::new();
    p.step(PlayerInput::Tick { elapsed_ms: 100 });
    let r = p.step(PlayerInput::Load { uri_ok: true, play: true });
    assert_eq!(r.call, Some(EngineCall::Load { play: true }));
    assert_eq!(r.messages, vec![PlayerEventMsg::StateChanged { is_playing: true }, PlayerEventMsg::Position(0)]);
    assert!(r.restart_clock);
    assert_eq!(p, PlayerLoop { is_playing: true, position_ms: 0 });
}

#[test]
fn invalid_uri_does_nothing() {
    let mut p = PlayerLoop { is_playing: true, position_ms: 700 };
    let r = p.step(PlayerInput::Load { uri_ok: false, play: true });
    assert!(r.call.is_none() && r.messages.is_empty() && !r.restart_clock && !r.finished);
    assert_eq!(p, PlayerLoop { is_playing: true, position_ms: 700 });
}

#[test]
fn toggle_twice_restores_state() {
    let mut p = PlayerLoop { is_playing: true, position_ms: 42 };
    let r1 = p.step(PlayerInput::Toggle);
    assert_eq!(r1.call, Some(EngineCall::Pause));
    assert_eq!(r1.messages, vec![PlayerEventMsg::StateChanged { is_playing: false }]);
    let r2 = p.step(PlayerInput::Toggle);
    assert_eq!(r2.call, Some(EngineCall::Play));
    assert!(r2.restart_clock);
    assert_eq!(p, PlayerLoop { is_playing: true, position_ms: 42 });
}

#[test]
fn ticks_advance_only_while_playing() {
    let mut p = PlayerLoop::new();
    let r = p.step(PlayerInput::Tick { elapsed_ms: 250 });
    assert!(r.messages.is_empty());
    assert_eq!(p.position_ms, 0);
    p.step(PlayerInput::Play);
    let r = p.step(PlayerInput::Tick { elapsed_ms: 250 });
    assert_eq!(r.messages, vec![PlayerEventMsg::Position(250)]);
    p.step(PlayerInput::Tick { elapsed_ms: 260 });
    assert_eq!(p.position_ms, 510);
}

#[test]
fn seek_stop_and_volume() {
    let mut p = PlayerLoop { is_playing: true, position_ms: 5 };
    let r = p.step(PlayerInput::Seek(90_000));
    assert_eq!(r.call, Some(EngineCall::Seek(90_000)));
    assert_eq!(r.messages, vec![PlayerEventMsg::Position(90_000)]);
    let r = p.step(PlayerInput::SetVolume(52_428));
    assert_eq!(r.call, Some(EngineCall::SetVolume(52_428)));
    assert!(r.messages.is_empty());
    let r = p.step(PlayerInput::Stop);
    assert_eq!(r.call, Some(EngineCall::Stop));
    assert_eq!(r.messages, vec![PlayerEventMsg::StateChanged { is_playing: false }, PlayerEventMsg::Position(0)]);
    assert_eq!(p, PlayerLoop { is_playing: false, position_ms: 0 });
}

#[test]
fn engine_events() {
    let mut p = PlayerLoop { is_playing: true, position_ms: 5 };
    let r = p.step(PlayerInput::Playing { position_ms: 1_000 });
    assert!(r.restart_clock && r.messages.is_empty());
    assert_eq!(p, PlayerLoop { is_playing: true, position_ms: 1_000 });
    p.step(PlayerInput::Paused { position_ms: 1_200 });
    assert_eq!(p, PlayerLoop { is_playing: false, position_ms: 1_200 });
    p.step(PlayerInput::Play);
    let r = p.step(PlayerInput::EndOfTrack);
    assert_eq!(r.messages, vec![PlayerEventMsg::StateChanged { is_playing: false }, PlayerEventMsg::EndOfTrack]);
    p.step(PlayerInput::Play);
    p.step(PlayerInput::Stopped);
    assert!(!p.is_playing);
    let r = p.step(PlayerInput::EventsClosed);
    assert!(!r.finished && r.call.is_none());
}

#[test]
fn closed_commands_end_the_loop() {
    let mut p = PlayerLoop::new();
    assert!(p.step(PlayerInput::CommandsClosed).finished);
    assert!(!p.step(PlayerInput::Pause).finished);
}

#[test]
fn tick_reports_never_go_back_over_a_run() {
    let mut p = PlayerLoop::new();
    let run = vec![
        PlayerInput::Play,
        PlayerInput::Tick { elapsed_ms: 250 },
        PlayerInput::Pause,
        PlayerInput::Tick { elapsed_ms: 250 },
        PlayerInput::Toggle,
        PlayerInput::SetVolume(10),
        PlayerInput::Tick { elapsed_ms: 100 },
        PlayerInput::EndOfTrack,
        PlayerInput::Tick { elapsed_ms: 250 },
    ];
    let mut reported = Vec::new();
    for input in run {
        let r = p.step(input);
        if let PlayerInput::Tick { .. } = input {
            for m in r.messages {
                if let PlayerEventMsg::Position(ms) = m {
                    reported.push(ms);
                }
            }
        }
    }
    assert_eq!(reported, vec![250, 350]);
}
