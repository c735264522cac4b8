use vstd::prelude::*;
use crate::text::{copy_str, same_text, views_of};

verus! {

/// How many one-shot sound slots there are: eight for sound actions and
/// one for previews in the sound picker.
pub const SFX_SLOTS: usize = 9;

/// The slot used for previews in the sound picker.
pub const PREVIEW_SLOT: usize = 8;

/// How many page-turn sounds there are.
pub const PAGE_TURN_SOUNDS: usize = 7;

/// Which page-turn sound the `counter`-th page turn plays: the sounds are
/// walked three at a time, so that neighbouring turns sound different.
pub fn page_turn_sound(counter: usize) -> (r: usize)
    ensures
        r == ((counter % 7) * 3) % 7,
        r < PAGE_TURN_SOUNDS,
{
    ((counter % PAGE_TURN_SOUNDS) * 3) % PAGE_TURN_SOUNDS
}

/// The track a playlist player goes on with after track `idx` of a
/// playlist of `len` tracks.  A looping player (background music,
/// ambience) wraps around to the first track, and starts the new playlist
/// from its first track when the playlist was changed; a frame player
/// plays its tracks once, and stops after the last one or when its
/// playlist was changed.
pub open spec fn next_track_spec(idx: usize, len: usize, looped: bool, changed: bool) -> Option<usize> {
    if looped {
        if len == 0 {
            None
        } else if changed {
            Some(0)
        } else {
            Some(((idx + 1) % (len as int)) as usize)
        }
    } else if changed || idx + 1 >= len {
        None
    } else {
        Some((idx + 1) as usize)
    }
}

/// The track to play after track `idx` of `len`.
pub fn next_track(idx: usize, len: usize, looped: bool, changed: bool) -> (r: Option<usize>)
    requires
        idx < usize::MAX,
    ensures
        r == next_track_spec(idx, len, looped, changed),
        r matches Some(n) ==> n < len,
{
    if looped {
        if len == 0 {
            None
        } else if changed {
            Some(0)
        } else {
            let n = (idx + 1) % len;
            assert((idx + 1) % (len as int) < len) by (nonlinear_arith)
                requires
                    len > 0,
            ;
            Some(n)
        }
    } else if changed || idx + 1 >= len {
        None
    } else {
        Some(idx + 1)
    }
}

/// A looping player goes round its playlist: after the last track comes
/// the first, after any other track the one that follows it.
pub proof fn lemma_looped_wraps(idx: usize, len: usize)
    requires
        idx < len,
    ensures
        idx + 1 == len ==> next_track_spec(idx, len, true, false) == Some(0usize),
        idx + 1 < len ==> next_track_spec(idx, len, true, false) == Some((idx + 1) as usize),
{
    if idx + 1 == len {
        assert((idx + 1) % (len as int) == 0) by (nonlinear_arith)
            requires
                idx + 1 == len,
                len > 0,
        ;
    } else {
        assert((idx + 1) % (len as int) == idx + 1) by (nonlinear_arith)
            requires
                idx + 1 < len,
        ;
    }
}

/// Where a playlist player stands in its round.
#[derive(Clone, Copy, Debug, PartialEq, Eq, Structural)]
pub enum PlayerPhase {
    /// A frame player that has not looked at its playlist yet.
    Start,
    /// At the top of a round, waiting for the playlist as it stands.
    Top,
    /// Loading the track to play into the active sink.
    Loading,
    /// Waiting until the track playing is near its end.
    Waiting,
    /// A looping player after its wait, reading the playlist again.
    AfterWait,
    /// Loading the following track into the other sink.
    LoadingNext,
    /// Crossfading from the active sink to the other one.
    Fading,
    /// A frame player without crossfade, queueing all its tracks.
    Appending,
    /// A frame player without crossfade, waiting for its queue to run out.
    Polling,
    /// The player has ended.
    Finished,
}

/// The state of a playlist player: whether it loops (background music and
/// ambience) or plays its tracks once (a frame), where it stands, which of
/// its two sinks is active, the track playing and its length, and what it
/// read of the playlist at the top of the round: the number of tracks,
/// the crossfade and the revision.  Lengths are in milliseconds.
#[derive(Clone, Copy, Debug, PartialEq, Eq, Structural)]
pub struct PlaylistState {
    pub looped: bool,
    pub phase: PlayerPhase,
    pub active_a: bool,
    pub idx: usize,
    pub playing: bool,
    pub current_ms: u64,
    pub len: usize,
    pub cf_ms: u64,
    pub revision: u64,
    pub changed: bool,
    pub next_idx: usize,
    pub next_ms: u64,
}

/// What a playlist player learns.
#[derive(Clone, Copy, Debug, PartialEq, Eq, Structural)]
pub enum PlaylistEvent {
    /// The playlist as it stands: stop asked, number of tracks, crossfade
    /// in milliseconds (0 when none), revision.
    Snapshot { stop: bool, tracks: usize, crossfade_ms: u64, revision: u64 },
    /// A track was loaded, with its length, or could not be.
    Loaded(Option<u64>),
    /// The wait ended: on a stop request, or on a change of the playlist,
    /// or in full.
    Waited { stopped: bool, revision_changed: bool },
    /// All tracks were queued; whether any could be.
    Appended(bool),
    /// The queue was looked at: run out, or else whether a stop was asked
    /// and whether the playlist changed meanwhile.
    Polled { empty: bool, stop: bool, changed: bool },
    /// The action asked for is done.
    Done,
}

/// What a playlist player asks to be done next.
#[derive(Clone, Copy, Debug, PartialEq, Eq, Structural)]
pub enum PlaylistAction {
    /// Read the playlist as it stands.
    Read,
    /// Sleep that many milliseconds.
    Sleep(u64),
    /// Load track `idx` into sink A (`into_a`) or B.
    Load { into_a: bool, idx: usize },
    /// Wait that many milliseconds, keeping the volume live, unless a stop
    /// is asked or the revision moves from `revision`.
    Wait { ms: u64, revision: u64 },
    /// Fade from sink A (`from_a`) or B to the other over that many
    /// milliseconds, then stop the one faded out.
    Crossfade { from_a: bool, ms: u64 },
    /// Fade sink A (`from_a`) or B out as the stop request asks.
    FadeOut { from_a: bool },
    /// Fade the queue of a frame player out as the stop request asks.
    FadeOutQueue,
    /// Queue every track of a frame player in one sink.
    AppendAll,
    /// Sleep one step and look at the queue, the stop request and the
    /// playlist against `revision`.
    Poll { revision: u64 },
    /// End the player.
    Finish,
}

/// How long a player waits on a track of `cur_ms` before the crossfade of
/// `cf_ms` starts: the rest, and at least 40 milliseconds.
pub open spec fn wait_ms(cur_ms: u64, cf_ms: u64) -> u64 {
    if cur_ms > cf_ms && cur_ms - cf_ms > 40 {
        (cur_ms - cf_ms) as u64
    } else {
        40
    }
}

/// A new player: a looping one starts at the top of its round, a frame
/// player first looks at its playlist; sink A is active, the first track
/// is due, nothing plays, and a track is taken to last ten seconds until
/// its length is known.
pub open spec fn new_player_spec(looped: bool) -> PlaylistState {
    PlaylistState {
        looped,
        phase: if looped { PlayerPhase::Top } else { PlayerPhase::Start },
        active_a: true,
        idx: 0,
        playing: false,
        current_ms: 10000,
        len: 0,
        cf_ms: 0,
        revision: 0,
        changed: false,
        next_idx: 0,
        next_ms: 0,
    }
}

/// An event its phase does not wait for ends the player.
pub open spec fn finished(s: PlaylistState) -> (PlaylistState, PlaylistAction) {
    (PlaylistState { phase: PlayerPhase::Finished, ..s }, PlaylistAction::Finish)
}

/// What a player waiting on the active track does: with the track loaded,
/// wait until it is near its end (a frame player waits its full length on
/// its last track).
pub open spec fn wait_on(s: PlaylistState) -> (PlaylistState, PlaylistAction) {
    let ms = if s.looped || s.idx + 1 < s.len {
        wait_ms(s.current_ms, s.cf_ms)
    } else {
        s.current_ms
    };
    (PlaylistState { phase: PlayerPhase::Waiting, ..s }, PlaylistAction::Wait { ms, revision: s.revision })
}

/// One step of a looping player (background music, ambience).
pub open spec fn looped_step(s: PlaylistState, e: PlaylistEvent) -> (PlaylistState, PlaylistAction) {
    match (s.phase, e) {
        (PlayerPhase::Top, PlaylistEvent::Snapshot { stop, tracks, crossfade_ms, revision }) => {
            if stop {
                (PlaylistState { phase: PlayerPhase::Finished, ..s }, PlaylistAction::FadeOut { from_a: s.active_a })
            } else if tracks == 0 {
                (s, PlaylistAction::Sleep(100))
            } else {
                let t = PlaylistState {
                    idx: if s.idx >= tracks { 0 } else { s.idx },
                    len: tracks,
                    cf_ms: crossfade_ms,
                    revision,
                    ..s
                };
                if !t.playing {
                    (PlaylistState { phase: PlayerPhase::Loading, ..t }, PlaylistAction::Load { into_a: t.active_a, idx: t.idx })
                } else {
                    wait_on(t)
                }
            }
        },
        (PlayerPhase::Loading, PlaylistEvent::Loaded(d)) => match d {
            Some(ms) => wait_on(PlaylistState { playing: true, current_ms: ms, ..s }),
            None => (
                PlaylistState { phase: PlayerPhase::Top, idx: ((s.idx + 1) % (s.len as int)) as usize, ..s },
                PlaylistAction::Sleep(100),
            ),
        },
        (PlayerPhase::Waiting, PlaylistEvent::Waited { stopped, revision_changed }) => {
            if stopped {
                finished(s)
            } else {
                (PlaylistState { phase: PlayerPhase::AfterWait, changed: revision_changed, ..s }, PlaylistAction::Read)
            }
        },
        (PlayerPhase::AfterWait, PlaylistEvent::Snapshot { stop: _, tracks, crossfade_ms, revision: _ }) => {
            if tracks == 0 {
                (PlaylistState { phase: PlayerPhase::Top, playing: false, ..s }, PlaylistAction::Sleep(100))
            } else {
                let next = if s.changed { 0 } else { ((s.idx + 1) % (tracks as int)) as usize };
                (
                    PlaylistState { phase: PlayerPhase::LoadingNext, next_idx: next, cf_ms: crossfade_ms, ..s },
                    PlaylistAction::Load { into_a: !s.active_a, idx: next },
                )
            }
        },
        (PlayerPhase::LoadingNext, PlaylistEvent::Loaded(d)) => (
            PlaylistState {
                phase: PlayerPhase::Fading,
                next_ms: match d {
                    Some(ms) => ms,
                    None => s.current_ms,
                },
                ..s
            },
            PlaylistAction::Crossfade { from_a: s.active_a, ms: s.cf_ms },
        ),
        (PlayerPhase::Fading, PlaylistEvent::Done) => (
            PlaylistState {
                phase: PlayerPhase::Top,
                active_a: !s.active_a,
                idx: s.next_idx,
                current_ms: s.next_ms,
                playing: true,
                ..s
            },
            PlaylistAction::Read,
        ),
        (PlayerPhase::Top, PlaylistEvent::Done) => (s, PlaylistAction::Read),
        _ => finished(s),
    }
}

/// One step of a frame player, which plays its tracks once.
pub open spec fn frame_step(s: PlaylistState, e: PlaylistEvent) -> (PlaylistState, PlaylistAction) {
    match (s.phase, e) {
        (PlayerPhase::Start, PlaylistEvent::Snapshot { stop, tracks, crossfade_ms, revision }) => {
            if stop {
                finished(s)
            } else if crossfade_ms == 0 {
                (
                    PlaylistState { phase: PlayerPhase::Appending, len: tracks, revision, ..s },
                    PlaylistAction::AppendAll,
                )
            } else {
                (PlaylistState { phase: PlayerPhase::Top, ..s }, PlaylistAction::Read)
            }
        },
        (PlayerPhase::Appending, PlaylistEvent::Appended(any)) => {
            if any {
                (PlaylistState { phase: PlayerPhase::Polling, ..s }, PlaylistAction::Poll { revision: s.revision })
            } else {
                finished(s)
            }
        },
        (PlayerPhase::Polling, PlaylistEvent::Polled { empty, stop, changed }) => {
            if empty {
                finished(s)
            } else if stop {
                (PlaylistState { phase: PlayerPhase::Finished, ..s }, PlaylistAction::FadeOutQueue)
            } else if changed {
                finished(s)
            } else {
                (s, PlaylistAction::Poll { revision: s.revision })
            }
        },
        (PlayerPhase::Top, PlaylistEvent::Snapshot { stop, tracks, crossfade_ms, revision }) => {
            if stop {
                (PlaylistState { phase: PlayerPhase::Finished, ..s }, PlaylistAction::FadeOut { from_a: s.active_a })
            } else if crossfade_ms == 0 || s.idx >= tracks {
                finished(s)
            } else {
                let t = PlaylistState { len: tracks, cf_ms: crossfade_ms, revision, ..s };
                if !t.playing {
                    (PlaylistState { phase: PlayerPhase::Loading, ..t }, PlaylistAction::Load { into_a: t.active_a, idx: t.idx })
                } else {
                    wait_on(t)
                }
            }
        },
        (PlayerPhase::Loading, PlaylistEvent::Loaded(d)) => match d {
            Some(ms) => wait_on(PlaylistState { playing: true, current_ms: ms, ..s }),
            None => (PlaylistState { phase: PlayerPhase::Top, idx: (s.idx + 1) as usize, ..s }, PlaylistAction::Sleep(40)),
        },
        (PlayerPhase::Waiting, PlaylistEvent::Waited { stopped, revision_changed }) => {
            if stopped || revision_changed || s.idx + 1 >= s.len {
                finished(s)
            } else {
                (
                    PlaylistState { phase: PlayerPhase::LoadingNext, next_idx: (s.idx + 1) as usize, ..s },
                    PlaylistAction::Load { into_a: !s.active_a, idx: (s.idx + 1) as usize },
                )
            }
        },
        (PlayerPhase::LoadingNext, PlaylistEvent::Loaded(d)) => (
            PlaylistState {
                phase: PlayerPhase::Fading,
                next_ms: match d {
                    Some(ms) => ms,
                    None => s.current_ms,
                },
                ..s
            },
            PlaylistAction::Crossfade { from_a: s.active_a, ms: s.cf_ms },
        ),
        (PlayerPhase::Fading, PlaylistEvent::Done) => (
            PlaylistState {
                phase: PlayerPhase::Top,
                active_a: !s.active_a,
                idx: s.next_idx,
                current_ms: s.next_ms,
                playing: true,
                ..s
            },
            PlaylistAction::Read,
        ),
        (PlayerPhase::Top, PlaylistEvent::Done) => (s, PlaylistAction::Read),
        _ => finished(s),
    }
}

/// One step of a playlist player.
pub open spec fn playlist_step_spec(s: PlaylistState, e: PlaylistEvent) -> (PlaylistState, PlaylistAction) {
    if s.looped {
        looped_step(s, e)
    } else {
        frame_step(s, e)
    }
}

/// Whether the player state is one a player reaches: the track index is
/// below the track count from loading to crossfading, and a frame player
/// crossfades to the track after the one playing.
pub open spec fn player_wf(s: PlaylistState) -> bool {
    ((s.phase == PlayerPhase::Loading || s.phase == PlayerPhase::Waiting || s.phase == PlayerPhase::AfterWait
        || s.phase == PlayerPhase::LoadingNext || s.phase == PlayerPhase::Fading) ==> s.idx < s.len) && (!s.looped && (
        s.phase == PlayerPhase::LoadingNext || s.phase == PlayerPhase::Fading) ==> s.next_idx == s.idx + 1)
}

impl PlaylistState {
    /// A new player, looping or not.
    pub fn new(looped: bool) -> (r: Self)
        ensures
            r == new_player_spec(looped),
            player_wf(r),
    {
        PlaylistState {
            looped,
            phase: if looped { PlayerPhase::Top } else { PlayerPhase::Start },
            active_a: true,
            idx: 0,
            playing: false,
            current_ms: 10000,
            len: 0,
            cf_ms: 0,
            revision: 0,
            changed: false,
            next_idx: 0,
            next_ms: 0,
        }
    }
}

fn wait_length(cur_ms: u64, cf_ms: u64) -> (r: u64)
    ensures
        r == wait_ms(cur_ms, cf_ms),
{
    if cur_ms > cf_ms && cur_ms - cf_ms > 40 {
        cur_ms - cf_ms
    } else {
        40
    }
}

fn wait_step(s: PlaylistState) -> (r: (PlaylistState, PlaylistAction))
    requires
        s.idx < s.len,
    ensures
        r == wait_on(s),
{
    let ms = if s.looped || s.idx + 1 < s.len {
        wait_length(s.current_ms, s.cf_ms)
    } else {
        s.current_ms
    };
    (PlaylistState { phase: PlayerPhase::Waiting, ..s }, PlaylistAction::Wait { ms, revision: s.revision })
}

fn finish(s: PlaylistState) -> (r: (PlaylistState, PlaylistAction))
    ensures
        r == finished(s),
{
    (PlaylistState { phase: PlayerPhase::Finished, ..s }, PlaylistAction::Finish)
}

fn looped_step_exec(s: PlaylistState, e: PlaylistEvent) -> (r: (PlaylistState, PlaylistAction))
    requires
        player_wf(s),
    ensures
        r == looped_step(s, e),
{
    match (s.phase, e) {
        (PlayerPhase::Top, PlaylistEvent::Snapshot { stop, tracks, crossfade_ms, revision }) => {
            if stop {
                (PlaylistState { phase: PlayerPhase::Finished, ..s }, PlaylistAction::FadeOut { from_a: s.active_a })
            } else if tracks == 0 {
                (s, PlaylistAction::Sleep(100))
            } else {
                let t = PlaylistState {
                    idx: if s.idx >= tracks { 0 } else { s.idx },
                    len: tracks,
                    cf_ms: crossfade_ms,
                    revision,
                    ..s
                };
                if !t.playing {
                    (PlaylistState { phase: PlayerPhase::Loading, ..t }, PlaylistAction::Load { into_a: t.active_a, idx: t.idx })
                } else {
                    wait_step(t)
                }
            }
        },
        (PlayerPhase::Loading, PlaylistEvent::Loaded(d)) => match d {
            Some(ms) => wait_step(PlaylistState { playing: true, current_ms: ms, ..s }),
            None => (
                PlaylistState { phase: PlayerPhase::Top, idx: (s.idx + 1) % s.len, ..s },
                PlaylistAction::Sleep(100),
            ),
        },
        (PlayerPhase::Waiting, PlaylistEvent::Waited { stopped, revision_changed }) => {
            if stopped {
                finish(s)
            } else {
                (PlaylistState { phase: PlayerPhase::AfterWait, changed: revision_changed, ..s }, PlaylistAction::Read)
            }
        },
        (PlayerPhase::AfterWait, PlaylistEvent::Snapshot { stop: _, tracks, crossfade_ms, revision: _ }) => {
            if tracks == 0 {
                (PlaylistState { phase: PlayerPhase::Top, playing: false, ..s }, PlaylistAction::Sleep(100))
            } else {
                let next = if s.changed { 0 } else { (s.idx + 1) % tracks };
                (
                    PlaylistState { phase: PlayerPhase::LoadingNext, next_idx: next, cf_ms: crossfade_ms, ..s },
                    PlaylistAction::Load { into_a: !s.active_a, idx: next },
                )
            }
        },
        (PlayerPhase::LoadingNext, PlaylistEvent::Loaded(d)) => {
            let next_ms = match d {
                Some(ms) => ms,
                None => s.current_ms,
            };
            (
                PlaylistState { phase: PlayerPhase::Fading, next_ms, ..s },
                PlaylistAction::Crossfade { from_a: s.active_a, ms: s.cf_ms },
            )
        },
        (PlayerPhase::Fading, PlaylistEvent::Done) => (
            PlaylistState {
                phase: PlayerPhase::Top,
                active_a: !s.active_a,
                idx: s.next_idx,
                current_ms: s.next_ms,
                playing: true,
                ..s
            },
            PlaylistAction::Read,
        ),
        (PlayerPhase::Top, PlaylistEvent::Done) => (s, PlaylistAction::Read),
        _ => finish(s),
    }
}

fn frame_step_exec(s: PlaylistState, e: PlaylistEvent) -> (r: (PlaylistState, PlaylistAction))
    requires
        player_wf(s),
    ensures
        r == frame_step(s, e),
{
    match (s.phase, e) {
        (PlayerPhase::Start, PlaylistEvent::Snapshot { stop, tracks, crossfade_ms, revision }) => {
            if stop {
                finish(s)
            } else if crossfade_ms == 0 {
                (
                    PlaylistState { phase: PlayerPhase::Appending, len: tracks, revision, ..s },
                    PlaylistAction::AppendAll,
                )
            } else {
                (PlaylistState { phase: PlayerPhase::Top, ..s }, PlaylistAction::Read)
            }
        },
        (PlayerPhase::Appending, PlaylistEvent::Appended(any)) => {
            if any {
                (PlaylistState { phase: PlayerPhase::Polling, ..s }, PlaylistAction::Poll { revision: s.revision })
            } else {
                finish(s)
            }
        },
        (PlayerPhase::Polling, PlaylistEvent::Polled { empty, stop, changed }) => {
            if empty {
                finish(s)
            } else if stop {
                (PlaylistState { phase: PlayerPhase::Finished, ..s }, PlaylistAction::FadeOutQueue)
            } else if changed {
                finish(s)
            } else {
                (s, PlaylistAction::Poll { revision: s.revision })
            }
        },
        (PlayerPhase::Top, PlaylistEvent::Snapshot { stop, tracks, crossfade_ms, revision }) => {
            if stop {
                (PlaylistState { phase: PlayerPhase::Finished, ..s }, PlaylistAction::FadeOut { from_a: s.active_a })
            } else if crossfade_ms == 0 || s.idx >= tracks {
                finish(s)
            } else {
                let t = PlaylistState { len: tracks, cf_ms: crossfade_ms, revision, ..s };
                if !t.playing {
                    (PlaylistState { phase: PlayerPhase::Loading, ..t }, PlaylistAction::Load { into_a: t.active_a, idx: t.idx })
                } else {
                    wait_step(t)
                }
            }
        },
        (PlayerPhase::Loading, PlaylistEvent::Loaded(d)) => match d {
            Some(ms) => wait_step(PlaylistState { playing: true, current_ms: ms, ..s }),
            None => (PlaylistState { phase: PlayerPhase::Top, idx: s.idx + 1, ..s }, PlaylistAction::Sleep(40)),
        },
        (PlayerPhase::Waiting, PlaylistEvent::Waited { stopped, revision_changed }) => {
            if stopped || revision_changed || s.idx + 1 >= s.len {
                finish(s)
            } else {
                (
                    PlaylistState { phase: PlayerPhase::LoadingNext, next_idx: s.idx + 1, ..s },
                    PlaylistAction::Load { into_a: !s.active_a, idx: s.idx + 1 },
                )
            }
        },
        (PlayerPhase::LoadingNext, PlaylistEvent::Loaded(d)) => {
            let next_ms = match d {
                Some(ms) => ms,
                None => s.current_ms,
            };
            (
                PlaylistState { phase: PlayerPhase::Fading, next_ms, ..s },
                PlaylistAction::Crossfade { from_a: s.active_a, ms: s.cf_ms },
            )
        },
        (PlayerPhase::Fading, PlaylistEvent::Done) => (
            PlaylistState {
                phase: PlayerPhase::Top,
                active_a: !s.active_a,
                idx: s.next_idx,
                current_ms: s.next_ms,
                playing: true,
                ..s
            },
            PlaylistAction::Read,
        ),
        (PlayerPhase::Top, PlaylistEvent::Done) => (s, PlaylistAction::Read),
        _ => finish(s),
    }
}

/// One step of a playlist player: from its state and what it learned, its
/// next state and what it asks to be done.  A looping player goes round
/// its playlist, skips a track that does not load, crossfades to the next
/// track (to the first one of a changed playlist), and ends only when a
/// stop is asked; a frame player plays its tracks once, queued in one
/// sink when it has no crossfade, and ends after its last track, on a
/// stop or when its playlist changes.
pub fn playlist_step(state: &PlaylistState, event: PlaylistEvent) -> (r: (PlaylistState, PlaylistAction))
    requires
        player_wf(*state),
    ensures
        r == playlist_step_spec(*state, event),
        player_wf(r.0),
        r.0.looped == state.looped,
{
    if state.looped {
        looped_step_exec(*state, event)
    } else {
        frame_step_exec(*state, event)
    }
}

/// A looping player ends only on a stop request: when a step ends it, the
/// event was the playlist with a stop asked, or the end of a wait on a
/// stop request (or an event its phase does not wait for).
pub proof fn lemma_looped_ends_on_stop(s: PlaylistState, e: PlaylistEvent)
    requires
        s.looped,
        s.phase != PlayerPhase::Finished,
        player_wf(s),
        match (s.phase, e) {
            (PlayerPhase::Top, PlaylistEvent::Snapshot { .. }) => true,
            (PlayerPhase::Top, PlaylistEvent::Done) => true,
            (PlayerPhase::Loading, PlaylistEvent::Loaded(_)) => true,
            (PlayerPhase::Waiting, PlaylistEvent::Waited { .. }) => true,
            (PlayerPhase::AfterWait, PlaylistEvent::Snapshot { .. }) => true,
            (PlayerPhase::LoadingNext, PlaylistEvent::Loaded(_)) => true,
            (PlayerPhase::Fading, PlaylistEvent::Done) => true,
            _ => false,
        },
    ensures
        playlist_step_spec(s, e).0.phase == PlayerPhase::Finished ==> (e matches PlaylistEvent::Snapshot { stop, .. }
            && stop && s.phase == PlayerPhase::Top) || (e matches PlaylistEvent::Waited { stopped, .. } && stopped),
{
}

/// A frame player never goes back: each step keeps or advances its track.
pub proof fn lemma_frame_moves_forward(s: PlaylistState, e: PlaylistEvent)
    requires
        !s.looped,
        player_wf(s),
    ensures
        playlist_step_spec(s, e).0.idx >= s.idx,
{
}

/// A looping playlist channel.
#[derive(Clone, Copy, Debug, PartialEq, Eq, Structural)]
pub enum Channel {
    Bgm,
    Ambient,
}

/// What the audio channels are doing: a generation counter that every
/// request advances, the master mute, which playlist players run, and
/// which one-shot slots have a sink.
pub struct Mixer {
    generation: u64,
    muted: bool,
    bgm: Option<PlayerSlot>,
    ambient: Option<PlayerSlot>,
    frame: bool,
    sinks: Vec<bool>,
}

/// A running looping player as the mixer keeps it: its tracks, and the
/// revision of its playlist, which grows each time the tracks change.
pub struct PlayerSlot {
    tracks: Vec<String>,
    revision: u64,
}

/// Whether the channel `kind` is the same in `a` and `b`: running or not,
/// with the same tracks and revision.
pub open spec fn same_channel(a: Mixer, b: Mixer, kind: Channel) -> bool {
    &&& a.playing(kind) == b.playing(kind)
    &&& a.tracks_of(kind) == b.tracks_of(kind)
    &&& a.revision_of(kind) == b.revision_of(kind)
}

/// Whether the track lists `a` and `b` hold the same paths.
fn same_tracks(a: &Vec<String>, b: &Vec<String>) -> (r: bool)
    ensures
        r == (views_of(a@) == views_of(b@)),
{
    if a.len() != b.len() {
        assert(views_of(a@).len() != views_of(b@).len());
        return false;
    }
    let mut i: usize = 0;
    while i < a.len()
        invariant
            a@.len() == b@.len(),
            0 <= i <= a@.len(),
            forall|k: int| 0 <= k < i ==> a@[k]@ == b@[k]@,
        decreases a@.len() - i,
    {
        if !same_text(a[i].as_str(), b[i].as_str()) {
            assert(views_of(a@)[i as int] != views_of(b@)[i as int]);
            return false;
        }
        i += 1;
    }
    assert(views_of(a@) =~= views_of(b@));
    true
}

fn copy_tracks(v: &Vec<String>) -> (r: Vec<String>)
    ensures
        views_of(r@) == views_of(v@),
{
    let mut out: Vec<String> = Vec::new();
    let mut i: usize = 0;
    while i < v.len()
        invariant
            0 <= i <= v@.len(),
            views_of(out@) == views_of(v@).subrange(0, i as int),
        decreases v@.len() - i,
    {
        let ghost before = out@;
        out.push(copy_str(v[i].as_str()));
        assert(views_of(out@) =~= views_of(before).push(v@[i as int]@));
        assert(views_of(v@).subrange(0, i + 1) =~= views_of(v@).subrange(0, i as int).push(v@[i as int]@));
        i += 1;
    }
    assert(views_of(v@).subrange(0, v@.len() as int) =~= views_of(v@));
    out
}

/// What a stop request asks the audio output to stop.
pub struct StopRequest {
    /// The background music player was running.
    pub bgm: bool,
    /// The ambient player was running.
    pub ambient: bool,
    /// The frame playlist player was running.
    pub frame: bool,
    /// The one-shot slots that have a sink, in order.
    pub sfx_slots: Vec<usize>,
}

/// The slots among the first `n` of `sinks` that have a sink, in order.
pub open spec fn slots_with_sink(sinks: Seq<bool>, n: int) -> Seq<usize>
    decreases n,
{
    if n <= 0 {
        Seq::empty()
    } else if sinks[n - 1] {
        slots_with_sink(sinks, n - 1).push((n - 1) as usize)
    } else {
        slots_with_sink(sinks, n - 1)
    }
}

impl Mixer {
    pub closed spec fn generation_spec(&self) -> u64 {
        self.generation
    }

    pub closed spec fn muted_spec(&self) -> bool {
        self.muted
    }

    /// Whether the playlist player of `kind` runs.
    pub closed spec fn playing(&self, kind: Channel) -> bool {
        match kind {
            Channel::Bgm => self.bgm is Some,
            Channel::Ambient => self.ambient is Some,
        }
    }

    /// The tracks of the playlist player of `kind` (none when it does not
    /// run).
    pub closed spec fn tracks_of(&self, kind: Channel) -> Seq<Seq<char>> {
        let slot = match kind {
            Channel::Bgm => self.bgm,
            Channel::Ambient => self.ambient,
        };
        match slot {
            Some(p) => views_of(p.tracks@),
            None => Seq::empty(),
        }
    }

    /// The revision of the playlist of `kind` (0 when it does not run).
    pub closed spec fn revision_of(&self, kind: Channel) -> u64 {
        let slot = match kind {
            Channel::Bgm => self.bgm,
            Channel::Ambient => self.ambient,
        };
        match slot {
            Some(p) => p.revision,
            None => 0,
        }
    }

    /// Whether the frame playlist player runs.
    pub closed spec fn frame_playing(&self) -> bool {
        self.frame
    }

    /// Which one-shot slots have a sink.
    pub closed spec fn sinks_spec(&self) -> Seq<bool> {
        self.sinks@
    }

    /// One flag per one-shot slot.
    pub closed spec fn wf(&self) -> bool {
        self.sinks@.len() == SFX_SLOTS
    }

    /// Nothing plays, nothing muted, no sink made yet.
    pub fn new() -> (r: Self)
        ensures
            r.wf(),
            r.generation_spec() == 0,
            !r.muted_spec(),
            !r.playing(Channel::Bgm),
            !r.playing(Channel::Ambient),
            r.revision_of(Channel::Bgm) == 0,
            r.revision_of(Channel::Ambient) == 0,
            !r.frame_playing(),
            forall|i: int| 0 <= i < SFX_SLOTS ==> !#[trigger] r.sinks_spec()[i],
    {
        let sinks = vec![false, false, false, false, false, false, false, false, false];
        Mixer { generation: 0, muted: false, bgm: None, ambient: None, frame: false, sinks }
    }

    /// How many requests were made.
    pub fn generation(&self) -> (r: u64)
        ensures
            r == self.generation_spec(),
    {
        self.generation
    }

    /// The revision of the playlist of `kind` (0 when it does not run).
    pub fn revision(&self, kind: Channel) -> (r: u64)
        ensures
            r == self.revision_of(kind),
    {
        let slot = match kind {
            Channel::Bgm => &self.bgm,
            Channel::Ambient => &self.ambient,
        };
        match slot {
            Some(p) => p.revision,
            None => 0,
        }
    }

    /// Mutes or unmutes every channel.
    pub fn set_master_muted(&mut self, m: bool)
        ensures
            final(self).muted_spec() == m,
            final(self).generation_spec() == old(self).generation_spec(),
            same_channel(*final(self), *old(self), Channel::Bgm),
            same_channel(*final(self), *old(self), Channel::Ambient),
            final(self).frame_playing() == old(self).frame_playing(),
            final(self).sinks_spec() == old(self).sinks_spec(),
            final(self).wf() == old(self).wf(),
    {
        self.muted = m;
    }

    /// Advances the generation of audio requests; the new generation.
    pub fn bump(&mut self) -> (r: u64)
        requires
            old(self).generation_spec() < u64::MAX,
        ensures
            r == old(self).generation_spec() + 1,
            final(self).generation_spec() == r,
            final(self).muted_spec() == old(self).muted_spec(),
            same_channel(*final(self), *old(self), Channel::Bgm),
            same_channel(*final(self), *old(self), Channel::Ambient),
            final(self).frame_playing() == old(self).frame_playing(),
            final(self).sinks_spec() == old(self).sinks_spec(),
            final(self).wf() == old(self).wf(),
    {
        self.generation = self.generation + 1;
        self.generation
    }

    /// A playlist request on `kind` with `tracks`: the player runs
    /// afterwards with these tracks.  Returns whether a new player is to be
    /// started (none ran), with revision 1; otherwise the running one keeps
    /// playing, and its revision grows by one exactly when the tracks
    /// changed (it then crossfades to the new playlist; with the same
    /// tracks only the volume and crossfade are taken live).
    pub fn play_playlist(&mut self, kind: Channel, tracks: &Vec<String>) -> (starts: bool)
        requires
            old(self).generation_spec() < u64::MAX,
            old(self).revision_of(kind) < u64::MAX,
        ensures
            starts == !old(self).playing(kind),
            final(self).playing(kind),
            final(self).tracks_of(kind) == views_of(tracks@),
            final(self).revision_of(kind) == if starts {
                1
            } else {
                old(self).revision_of(kind) + if views_of(tracks@) != old(self).tracks_of(kind) {
                    1int
                } else {
                    0int
                }
            },
            final(self).generation_spec() == old(self).generation_spec() + 1,
            kind == Channel::Bgm ==> same_channel(*final(self), *old(self), Channel::Ambient),
            kind == Channel::Ambient ==> same_channel(*final(self), *old(self), Channel::Bgm),
            final(self).frame_playing() == old(self).frame_playing(),
            final(self).muted_spec() == old(self).muted_spec(),
            final(self).sinks_spec() == old(self).sinks_spec(),
            final(self).wf() == old(self).wf(),
    {
        self.bump();
        let slot = match kind {
            Channel::Bgm => self.bgm.take(),
            Channel::Ambient => self.ambient.take(),
        };
        let starts = slot.is_none();
        let updated = match slot {
            None => PlayerSlot { tracks: copy_tracks(tracks), revision: 1 },
            Some(p) => {
                if same_tracks(&p.tracks, tracks) {
                    p
                } else {
                    PlayerSlot { tracks: copy_tracks(tracks), revision: p.revision + 1 }
                }
            },
        };
        match kind {
            Channel::Bgm => {
                self.bgm = Some(updated);
            },
            Channel::Ambient => {
                self.ambient = Some(updated);
            },
        }
        starts
    }

    /// Stops the playlist player of `kind`.  Returns whether one ran (and
    /// is to fade out).
    pub fn stop_playlist(&mut self, kind: Channel) -> (was_playing: bool)
        requires
            old(self).generation_spec() < u64::MAX,
        ensures
            was_playing == old(self).playing(kind),
            !final(self).playing(kind),
            final(self).revision_of(kind) == 0,
            final(self).tracks_of(kind) == Seq::<Seq<char>>::empty(),
            final(self).generation_spec() == old(self).generation_spec() + 1,
            kind == Channel::Bgm ==> same_channel(*final(self), *old(self), Channel::Ambient),
            kind == Channel::Ambient ==> same_channel(*final(self), *old(self), Channel::Bgm),
            final(self).frame_playing() == old(self).frame_playing(),
            final(self).muted_spec() == old(self).muted_spec(),
            final(self).sinks_spec() == old(self).sinks_spec(),
            final(self).wf() == old(self).wf(),
    {
        self.bump();
        match kind {
            Channel::Bgm => {
                let was = self.bgm.is_some();
                self.bgm = None;
                was
            },
            Channel::Ambient => {
                let was = self.ambient.is_some();
                self.ambient = None;
                was
            },
        }
    }

    /// A frame playlist request: a new frame player starts.  Returns
    /// whether one already ran (and is to stop first).
    pub fn play_frame(&mut self) -> (stops_previous: bool)
        requires
            old(self).generation_spec() < u64::MAX,
        ensures
            stops_previous == old(self).frame_playing(),
            final(self).frame_playing(),
            final(self).generation_spec() == old(self).generation_spec() + 1,
            same_channel(*final(self), *old(self), Channel::Bgm),
            same_channel(*final(self), *old(self), Channel::Ambient),
            final(self).muted_spec() == old(self).muted_spec(),
            final(self).sinks_spec() == old(self).sinks_spec(),
            final(self).wf() == old(self).wf(),
    {
        self.bump();
        let was = self.frame;
        self.frame = true;
        was
    }

    /// Stops the frame player.  Returns whether one ran.
    pub fn stop_frame(&mut self) -> (was_playing: bool)
        requires
            old(self).generation_spec() < u64::MAX,
        ensures
            was_playing == old(self).frame_playing(),
            !final(self).frame_playing(),
            final(self).generation_spec() == old(self).generation_spec() + 1,
            same_channel(*final(self), *old(self), Channel::Bgm),
            same_channel(*final(self), *old(self), Channel::Ambient),
            final(self).muted_spec() == old(self).muted_spec(),
            final(self).sinks_spec() == old(self).sinks_spec(),
            final(self).wf() == old(self).wf(),
    {
        self.bump();
        let was = self.frame;
        self.frame = false;
        was
    }

    /// Whether a one-shot sound may start in `slot`: the slot exists and
    /// the master is not muted.
    pub fn start_sfx(&self, slot: usize) -> (r: bool)
        ensures
            r == (slot < SFX_SLOTS && !self.muted_spec()),
    {
        slot < SFX_SLOTS && !self.muted
    }

    /// A one-shot sound request on `slot`.  Returns whether the sound may
    /// start there.
    pub fn play_sfx(&mut self, slot: usize) -> (r: bool)
        requires
            old(self).generation_spec() < u64::MAX,
        ensures
            r == (slot < SFX_SLOTS && !old(self).muted_spec()),
            final(self).generation_spec() == old(self).generation_spec() + 1,
            final(self).muted_spec() == old(self).muted_spec(),
            same_channel(*final(self), *old(self), Channel::Bgm),
            same_channel(*final(self), *old(self), Channel::Ambient),
            final(self).frame_playing() == old(self).frame_playing(),
            final(self).sinks_spec() == old(self).sinks_spec(),
            final(self).wf() == old(self).wf(),
    {
        self.bump();
        self.start_sfx(slot)
    }

    /// Records that the one-shot slot `slot` got its sink.
    pub fn sink_made(&mut self, slot: usize)
        requires
            old(self).wf(),
            slot < SFX_SLOTS,
        ensures
            final(self).wf(),
            final(self).sinks_spec() == old(self).sinks_spec().update(slot as int, true),
            final(self).generation_spec() == old(self).generation_spec(),
            final(self).muted_spec() == old(self).muted_spec(),
            same_channel(*final(self), *old(self), Channel::Bgm),
            same_channel(*final(self), *old(self), Channel::Ambient),
            final(self).frame_playing() == old(self).frame_playing(),
    {
        self.sinks.set(slot, true);
    }

    /// Whether `slot` has a sink to stop.
    pub fn stop_sfx(&self, slot: usize) -> (r: bool)
        requires
            self.wf(),
        ensures
            r == (slot < SFX_SLOTS && self.sinks_spec()[slot as int]),
    {
        slot < SFX_SLOTS && self.sinks[slot]
    }

    /// Whether the one-shot sound of `slot` still sounds, its sink being
    /// empty or not as `sink_empty` says.
    pub fn sfx_playing(&self, slot: usize, sink_empty: bool) -> (r: bool)
        requires
            self.wf(),
        ensures
            r == (slot < SFX_SLOTS && self.sinks_spec()[slot as int] && !sink_empty),
    {
        slot < SFX_SLOTS && self.sinks[slot] && !sink_empty
    }

    fn sinks_to_stop(&self) -> (r: Vec<usize>)
        requires
            self.wf(),
        ensures
            r@ == slots_with_sink(self.sinks_spec(), SFX_SLOTS as int),
    {
        let mut r: Vec<usize> = Vec::new();
        let mut i: usize = 0;
        while i < SFX_SLOTS
            invariant
                self.wf(),
                0 <= i <= SFX_SLOTS,
                r@ == slots_with_sink(self.sinks_spec(), i as int),
            decreases SFX_SLOTS - i,
        {
            if self.sinks[i] {
                r.push(i);
            }
            i += 1;
        }
        r
    }

    /// Stops the frame player and every one-shot sound, not the playlists.
    pub fn stop_frame_and_sfx(&mut self) -> (r: StopRequest)
        requires
            old(self).wf(),
            old(self).generation_spec() < u64::MAX,
        ensures
            final(self).wf(),
            !final(self).frame_playing(),
            r.frame == old(self).frame_playing(),
            !r.bgm && !r.ambient,
            r.sfx_slots@ == slots_with_sink(old(self).sinks_spec(), SFX_SLOTS as int),
            final(self).generation_spec() == old(self).generation_spec() + 1,
            same_channel(*final(self), *old(self), Channel::Bgm),
            same_channel(*final(self), *old(self), Channel::Ambient),
            final(self).muted_spec() == old(self).muted_spec(),
            final(self).sinks_spec() == old(self).sinks_spec(),
    {
        self.bump();
        let frame = self.frame;
        self.frame = false;
        let sfx_slots = self.sinks_to_stop();
        StopRequest { bgm: false, ambient: false, frame, sfx_slots }
    }

    /// Stops everything: both playlists, the frame player and every
    /// one-shot sound.  Every step is a request of its own, so the
    /// generation advances by four.
    pub fn stop_all(&mut self) -> (r: StopRequest)
        requires
            old(self).wf(),
            old(self).generation_spec() < u64::MAX - 3,
        ensures
            final(self).wf(),
            !final(self).playing(Channel::Bgm),
            !final(self).playing(Channel::Ambient),
            !final(self).frame_playing(),
            r.bgm == old(self).playing(Channel::Bgm),
            r.ambient == old(self).playing(Channel::Ambient),
            r.frame == old(self).frame_playing(),
            r.sfx_slots@ == slots_with_sink(old(self).sinks_spec(), SFX_SLOTS as int),
            final(self).generation_spec() == old(self).generation_spec() + 4,
            final(self).muted_spec() == old(self).muted_spec(),
            final(self).sinks_spec() == old(self).sinks_spec(),
    {
        self.bump();
        let bgm = self.stop_playlist(Channel::Bgm);
        let ambient = self.stop_playlist(Channel::Ambient);
        let rest = self.stop_frame_and_sfx();
        StopRequest { bgm, ambient, frame: rest.frame, sfx_slots: rest.sfx_slots }
    }
}

} // verus!
