use vstd::prelude::*;

verus! {

/// What the audio loop reports to the interface.
#[derive(Debug, Clone, Copy, PartialEq, Eq, Structural)]
pub enum PlayerEventMsg {
    Position(u32),
    StateChanged { is_playing: bool },
    EndOfTrack,
}

/// What the audio loop receives: a command from the interface, an event of the audio engine,
/// or a tick of its clock (with the milliseconds since the clock was last restarted).
#[derive(Debug, Clone, Copy, PartialEq, Eq, Structural)]
pub enum PlayerInput {
    /// Load a track; `uri_ok` tells whether its uri named a track.
    Load { uri_ok: bool, play: bool },
    Play,
    Pause,
    Toggle,
    Seek(u32),
    SetVolume(u16),
    Stop,
    /// The command channel closed.
    CommandsClosed,
    EndOfTrack,
    Playing { position_ms: u32 },
    Paused { position_ms: u32 },
    Stopped,
    /// The engine's event channel closed.
    EventsClosed,
    OtherEvent,
    Tick { elapsed_ms: u32 },
}

/// A call that the loop makes on the audio engine.
#[derive(Debug, Clone, Copy, PartialEq, Eq, Structural)]
pub enum EngineCall {
    Load { play: bool },
    Play,
    Pause,
    Seek(u32),
    /// Set the mixer volume and announce it.
    SetVolume(u16),
    Stop,
}

/// What the loop believes of the playback: whether it plays and where it is.
#[derive(Debug, Clone, Copy, PartialEq, Eq, Structural)]
pub struct PlayerLoop {
    pub is_playing: bool,
    pub position_ms: u32,
}

/// What one input makes the loop do.
#[derive(Debug)]
pub struct Reaction {
    pub call: Option<EngineCall>,
    /// Messages to the interface, in order.
    pub messages: Vec<PlayerEventMsg>,
    /// Restart the clock that measures elapsed playback.
    pub restart_clock: bool,
    /// Leave the loop.
    pub finished: bool,
}

pub struct ReactionView {
    pub call: Option<EngineCall>,
    pub messages: Seq<PlayerEventMsg>,
    pub restart_clock: bool,
    pub finished: bool,
}

impl View for Reaction {
    type V = ReactionView;

    open spec fn view(&self) -> ReactionView {
        ReactionView {
            call: self.call,
            messages: self.messages@,
            restart_clock: self.restart_clock,
            finished: self.finished,
        }
    }
}

pub open spec fn reaction(
    call: Option<EngineCall>,
    messages: Seq<PlayerEventMsg>,
    restart_clock: bool,
    finished: bool,
) -> ReactionView {
    ReactionView { call, messages, restart_clock, finished }
}

pub open spec fn quiet() -> ReactionView {
    reaction(None, Seq::empty(), false, false)
}

/// An input that the loop can take in state `s` (the position does not pass `u32::MAX`).
pub open spec fn input_ok(s: PlayerLoop, input: PlayerInput) -> bool {
    match input {
        PlayerInput::Tick { elapsed_ms } => s.is_playing ==> s.position_ms + elapsed_ms
            <= u32::MAX,
        _ => true,
    }
}

/// The state after `input`.
pub open spec fn next_state(s: PlayerLoop, input: PlayerInput) -> PlayerLoop {
    match input {
        PlayerInput::Load { uri_ok, play } => if uri_ok {
            PlayerLoop { is_playing: play, position_ms: 0 }
        } else {
            s
        },
        PlayerInput::Play => PlayerLoop { is_playing: true, ..s },
        PlayerInput::Pause => PlayerLoop { is_playing: false, ..s },
        PlayerInput::Toggle => PlayerLoop { is_playing: !s.is_playing, ..s },
        PlayerInput::Seek(t) => PlayerLoop { position_ms: t, ..s },
        PlayerInput::Stop => PlayerLoop { is_playing: false, position_ms: 0 },
        PlayerInput::EndOfTrack => PlayerLoop { is_playing: false, ..s },
        PlayerInput::Playing { position_ms } => PlayerLoop { position_ms, ..s },
        PlayerInput::Paused { position_ms } => PlayerLoop { is_playing: false, position_ms },
        PlayerInput::Stopped => PlayerLoop { is_playing: false, ..s },
        PlayerInput::Tick { elapsed_ms } => if s.is_playing {
            PlayerLoop { position_ms: (s.position_ms + elapsed_ms) as u32, ..s }
        } else {
            s
        },
        _ => s,
    }
}

/// What the loop does on `input` in state `s`.
pub open spec fn reaction_to(s: PlayerLoop, input: PlayerInput) -> ReactionView {
    match input {
        PlayerInput::Load { uri_ok, play } => if uri_ok {
            reaction(
                Some(EngineCall::Load { play }),
                seq![PlayerEventMsg::StateChanged { is_playing: play }, PlayerEventMsg::Position(0)],
                true,
                false,
            )
        } else {
            quiet()
        },
        PlayerInput::Play => reaction(
            Some(EngineCall::Play),
            seq![PlayerEventMsg::StateChanged { is_playing: true }],
            true,
            false,
        ),
        PlayerInput::Pause => reaction(
            Some(EngineCall::Pause),
            seq![PlayerEventMsg::StateChanged { is_playing: false }],
            false,
            false,
        ),
        PlayerInput::Toggle => if s.is_playing {
            reaction(
                Some(EngineCall::Pause),
                seq![PlayerEventMsg::StateChanged { is_playing: false }],
                false,
                false,
            )
        } else {
            reaction(
                Some(EngineCall::Play),
                seq![PlayerEventMsg::StateChanged { is_playing: true }],
                true,
                false,
            )
        },
        PlayerInput::Seek(t) => reaction(
            Some(EngineCall::Seek(t)),
            seq![PlayerEventMsg::Position(t)],
            true,
            false,
        ),
        PlayerInput::SetVolume(v) => reaction(Some(EngineCall::SetVolume(v)), Seq::empty(), false, false),
        PlayerInput::Stop => reaction(
            Some(EngineCall::Stop),
            seq![PlayerEventMsg::StateChanged { is_playing: false }, PlayerEventMsg::Position(0)],
            false,
            false,
        ),
        PlayerInput::CommandsClosed => reaction(None, Seq::empty(), false, true),
        PlayerInput::EndOfTrack => reaction(
            None,
            seq![PlayerEventMsg::StateChanged { is_playing: false }, PlayerEventMsg::EndOfTrack],
            false,
            false,
        ),
        PlayerInput::Playing { .. } => reaction(None, Seq::empty(), true, false),
        PlayerInput::Tick { elapsed_ms } => if s.is_playing {
            reaction(
                None,
                seq![PlayerEventMsg::Position((s.position_ms + elapsed_ms) as u32)],
                true,
                false,
            )
        } else {
            quiet()
        },
        _ => quiet(),
    }
}

impl PlayerLoop {
    /// A loop that is paused at the start.
    pub fn new() -> (res: PlayerLoop)
        ensures
            !res.is_playing,
            res.position_ms == 0,
    {
        PlayerLoop { is_playing: false, position_ms: 0 }
    }

    /// Takes one input: updates the state and says what to call and report.
    pub fn step(&mut self, input: PlayerInput) -> (res: Reaction)
        requires
            input_ok(*old(self), input),
        ensures
            *final(self) == next_state(*old(self), input),
            res@ == reaction_to(*old(self), input),
    {
        let mut messages: Vec<PlayerEventMsg> = Vec::new();
        let mut call: Option<EngineCall> = None;
        let mut restart_clock = false;
        let mut finished = false;
        match input {
            PlayerInput::Load { uri_ok, play } => {
                if uri_ok {
                    call = Some(EngineCall::Load { play });
                    self.is_playing = play;
                    self.position_ms = 0;
                    restart_clock = true;
                    messages.push(PlayerEventMsg::StateChanged { is_playing: play });
                    messages.push(PlayerEventMsg::Position(0));
                }
            },
            PlayerInput::Play => {
                call = Some(EngineCall::Play);
                self.is_playing = true;
                restart_clock = true;
                messages.push(PlayerEventMsg::StateChanged { is_playing: true });
            },
            PlayerInput::Pause => {
                call = Some(EngineCall::Pause);
                self.is_playing = false;
                messages.push(PlayerEventMsg::StateChanged { is_playing: false });
            },
            PlayerInput::Toggle => {
                if self.is_playing {
                    call = Some(EngineCall::Pause);
                    self.is_playing = false;
                } else {
                    call = Some(EngineCall::Play);
                    self.is_playing = true;
                    restart_clock = true;
                }
                messages.push(PlayerEventMsg::StateChanged { is_playing: self.is_playing });
            },
            PlayerInput::Seek(target_ms) => {
                call = Some(EngineCall::Seek(target_ms));
                self.position_ms = target_ms;
                restart_clock = true;
                messages.push(PlayerEventMsg::Position(self.position_ms));
            },
            PlayerInput::SetVolume(volume) => {
                call = Some(EngineCall::SetVolume(volume));
            },
            PlayerInput::Stop => {
                call = Some(EngineCall::Stop);
                self.is_playing = false;
                self.position_ms = 0;
                messages.push(PlayerEventMsg::StateChanged { is_playing: false });
                messages.push(PlayerEventMsg::Position(0));
            },
            PlayerInput::CommandsClosed => {
                finished = true;
            },
            PlayerInput::EndOfTrack => {
                self.is_playing = false;
                messages.push(PlayerEventMsg::StateChanged { is_playing: false });
                messages.push(PlayerEventMsg::EndOfTrack);
            },
            PlayerInput::Playing { position_ms } => {
                self.position_ms = position_ms;
                restart_clock = true;
            },
            PlayerInput::Paused { position_ms } => {
                self.position_ms = position_ms;
                self.is_playing = false;
            },
            PlayerInput::Stopped => {
                self.is_playing = false;
            },
            PlayerInput::EventsClosed => {},
            PlayerInput::OtherEvent => {},
            PlayerInput::Tick { elapsed_ms } => {
                if self.is_playing {
                    self.position_ms = self.position_ms + elapsed_ms;
                    restart_clock = true;
                    messages.push(PlayerEventMsg::Position(self.position_ms));
                }
            },
        }
        assert(messages@ =~= reaction_to(*old(self), input).messages);
        Reaction { call, messages, restart_clock, finished }
    }
}

/// A toggle undoes a toggle.
pub proof fn lemma_toggle_twice(s: PlayerLoop)
    ensures
        next_state(next_state(s, PlayerInput::Toggle), PlayerInput::Toggle) == s,
{
}

/// The loop reports the state it is in after the input: every position message carries the
/// new position and every state message the new playing state.
pub proof fn lemma_reports_match_state(s: PlayerLoop, input: PlayerInput)
    ensures
        forall|i: int|
            0 <= i < reaction_to(s, input).messages.len() ==> match #[trigger] reaction_to(
                s,
                input,
            ).messages[i] {
                PlayerEventMsg::Position(p) => p == next_state(s, input).position_ms,
                PlayerEventMsg::StateChanged { is_playing } => is_playing == next_state(
                    s,
                    input,
                ).is_playing,
                PlayerEventMsg::EndOfTrack => !next_state(s, input).is_playing,
            },
{
}

/// While paused, the clock moves nothing and reports nothing.
pub proof fn lemma_paused_ticks_are_quiet(s: PlayerLoop, elapsed_ms: u32)
    requires
        !s.is_playing,
    ensures
        next_state(s, PlayerInput::Tick { elapsed_ms }) == s,
        reaction_to(s, PlayerInput::Tick { elapsed_ms }) == quiet(),
{
}

/// While playing, ticks add up: two ticks move the position as one tick of their sum.
pub proof fn lemma_ticks_add_up(s: PlayerLoop, a: u32, b: u32)
    requires
        s.is_playing,
        s.position_ms + a + b <= u32::MAX,
    ensures
        next_state(next_state(s, PlayerInput::Tick { elapsed_ms: a }), PlayerInput::Tick { elapsed_ms: b }).position_ms
            == s.position_ms + a + b,
{
}

/// The state after the inputs, taken one after the other from `s`.
pub open spec fn run_state(s: PlayerLoop, inputs: Seq<PlayerInput>) -> PlayerLoop
    decreases inputs.len(),
{
    if inputs.len() == 0 {
        s
    } else {
        next_state(run_state(s, inputs.drop_last()), inputs.last())
    }
}

/// Each input of the run is one that the loop can take in the state it meets.
pub open spec fn run_ok(s: PlayerLoop, inputs: Seq<PlayerInput>) -> bool {
    forall|j: int| 0 <= j < inputs.len() ==> input_ok(#[trigger] run_state(s, inputs.take(j)), inputs[j])
}

/// An input that sets no position: no load, seek or stop command, and no position report of
/// the audio engine.
pub open spec fn keeps_position(input: PlayerInput) -> bool {
    !(input is Load || input is Seek || input is Stop || input is Playing || input is Paused)
}

proof fn lemma_run_step(s: PlayerLoop, inputs: Seq<PlayerInput>, k: int)
    requires
        0 <= k < inputs.len(),
    ensures
        run_state(s, inputs.take(k + 1)) == next_state(run_state(s, inputs.take(k)), inputs[k]),
{
    assert(inputs.take(k + 1).drop_last() == inputs.take(k));
    assert(inputs.take(k + 1).last() == inputs[k]);
}

proof fn lemma_positions_rise(s: PlayerLoop, inputs: Seq<PlayerInput>, j: int, k: int)
    requires
        run_ok(s, inputs),
        forall|m: int| 0 <= m < inputs.len() ==> keeps_position(#[trigger] inputs[m]),
        0 <= j <= k <= inputs.len(),
    ensures
        run_state(s, inputs.take(j)).position_ms <= run_state(s, inputs.take(k)).position_ms,
    decreases k - j,
{
    if j < k {
        lemma_positions_rise(s, inputs, j, k - 1);
        lemma_run_step(s, inputs, k - 1);
        assert(keeps_position(inputs[k - 1]));
        assert(input_ok(run_state(s, inputs.take(k - 1)), inputs[k - 1]));
    }
}

/// Over a run of inputs that set no position (no load, seek or stop, no position report of
/// the engine), a tick reports the position only while playing, it reports the position the
/// loop is then at, and the position never goes back: a later report is at least an earlier
/// one.
pub proof fn lemma_tick_reports_over_run(s: PlayerLoop, inputs: Seq<PlayerInput>)
    requires
        run_ok(s, inputs),
        forall|m: int| 0 <= m < inputs.len() ==> keeps_position(#[trigger] inputs[m]),
    ensures
        forall|m: int|
            0 <= m < inputs.len() && #[trigger] inputs[m] is Tick ==> reaction_to(
                run_state(s, inputs.take(m)),
                inputs[m],
            ).messages == if run_state(s, inputs.take(m)).is_playing {
                seq![PlayerEventMsg::Position(run_state(s, inputs.take(m + 1)).position_ms)]
            } else {
                Seq::<PlayerEventMsg>::empty()
            },
        forall|j: int, k: int|
            0 <= j <= k <= inputs.len() ==> #[trigger] run_state(s, inputs.take(j)).position_ms
                <= #[trigger] run_state(s, inputs.take(k)).position_ms,
{
    assert forall|m: int| 0 <= m < inputs.len() && #[trigger] inputs[m] is Tick implies reaction_to(
        run_state(s, inputs.take(m)),
        inputs[m],
    ).messages == if run_state(s, inputs.take(m)).is_playing {
        seq![PlayerEventMsg::Position(run_state(s, inputs.take(m + 1)).position_ms)]
    } else {
        Seq::<PlayerEventMsg>::empty()
    } by {
        lemma_run_step(s, inputs, m);
        assert(input_ok(run_state(s, inputs.take(m)), inputs[m]));
    }
    assert forall|j: int, k: int| 0 <= j <= k <= inputs.len() implies #[trigger] run_state(
        s,
        inputs.take(j),
    ).position_ms <= #[trigger] run_state(s, inputs.take(k)).position_ms by {
        lemma_positions_rise(s, inputs, j, k);
    }
}

/// A seek moves the position to its target and changes nothing else: playing stays playing
/// and paused stays paused; the engine is asked to seek and the new position is reported.
pub proof fn lemma_seek_moves_only_position(s: PlayerLoop, t: u32)
    ensures
        next_state(s, PlayerInput::Seek(t)) == (PlayerLoop { is_playing: s.is_playing, position_ms: t }),
        reaction_to(s, PlayerInput::Seek(t)).call == Some(EngineCall::Seek(t)),
        reaction_to(s, PlayerInput::Seek(t)).messages == seq![PlayerEventMsg::Position(t)],
{
}

/// Only playback commands (load, play, pause, toggle, stop) and the engine's end, pause and
/// stop events change whether the loop is playing; every other input leaves it as it was.
pub proof fn lemma_playing_changes_only_by_playback_inputs(s: PlayerLoop, input: PlayerInput)
    requires
        !(input is Load || input is Play || input is Pause || input is Toggle || input is Stop
            || input is EndOfTrack || input is Paused || input is Stopped),
    ensures
        next_state(s, input).is_playing == s.is_playing,
{
}

} // verus!
