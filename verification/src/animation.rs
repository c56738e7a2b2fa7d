//! Animation selection. Each frame, the locomotion state picks one of
//! two preloaded clips and asks the host's animation player for a
//! looping crossfade to it. Re-requesting the clip that is already
//! playing starts nothing, so repeating a state is harmless.

use vstd::prelude::*;
use crate::ConfigError;
use crate::controller::LocomotionState;

verus! {

/// Crossfade length handed to the host player, in milliseconds.
pub const TRANSITION_MS: u64 = 200;

/// The two clip handles the scene needs, loaded once at startup.
/// A handle is an opaque identifier the host gave out for a clip.
#[derive(Clone, Copy, Debug, PartialEq, Eq, Structural)]
pub struct AnimationSet {
    pub idle: u64,
    pub walking: u64,
}

/// What `AnimationSet::new` returns: the first clip of the table
/// animates idling, the second walking; a shorter table is a fatal
/// configuration error.
pub open spec fn animation_set_spec(clips: Seq<u64>) -> Result<AnimationSet, ConfigError> {
    if clips.len() < 2 {
        Err(ConfigError::MissingAnimation)
    } else {
        Ok(AnimationSet { idle: clips[0], walking: clips[1] })
    }
}

/// The clip a locomotion state plays.
pub open spec fn clip_for_spec(set: AnimationSet, state: LocomotionState) -> u64 {
    match state {
        LocomotionState::Idle => set.idle,
        LocomotionState::Walking => set.walking,
    }
}

impl AnimationSet {
    /// Take the idle and walking clips from the loaded table, failing
    /// fast when the table is too short.
    pub fn new(clips: &Vec<u64>) -> (r: Result<AnimationSet, ConfigError>)
        ensures
            r == animation_set_spec(clips@),
    {
        if clips.len() < 2 {
            Err(ConfigError::MissingAnimation)
        } else {
            Ok(AnimationSet { idle: clips[0], walking: clips[1] })
        }
    }

    /// The clip to play for a locomotion state.
    pub fn clip_for(&self, state: LocomotionState) -> (r: u64)
        ensures
            r == clip_for_spec(*self, state),
    {
        match state {
            LocomotionState::Idle => self.idle,
            LocomotionState::Walking => self.walking,
        }
    }
}

/// One crossfade request for the host's animation player.
#[derive(Clone, Copy, Debug, PartialEq, Eq, Structural)]
pub struct AnimationRequest {
    pub clip: u64,
    pub transition_ms: u64,
    pub looped: bool,
}

/// Build the request a locomotion state issues: its clip, the fixed
/// crossfade length, looping playback.
pub fn animation_request(set: &AnimationSet, state: LocomotionState) -> (r: AnimationRequest)
    ensures
        r.clip == clip_for_spec(*set, state),
        r.transition_ms == TRANSITION_MS,
        r.looped,
{
    AnimationRequest { clip: set.clip_for(state), transition_ms: TRANSITION_MS, looped: true }
}

/// The part of the host animation player the selector relies on:
/// which clip is the current crossfade target, if any.
#[derive(Clone, Copy, Debug, PartialEq, Eq, Structural)]
pub struct PlayerModel {
    pub current: Option<u64>,
}

/// What playing a clip does to the player: an already-playing target
/// clip is left alone, any other clip becomes the target of a new
/// crossfade. The second result says whether a crossfade started.
pub open spec fn play_spec(p: PlayerModel, clip: u64) -> (PlayerModel, bool) {
    if p.current == Some(clip) {
        (p, false)
    } else {
        (PlayerModel { current: Some(clip) }, true)
    }
}

impl PlayerModel {
    /// A player that has not been asked to play anything yet.
    pub fn start() -> (r: PlayerModel)
        ensures
            r == (PlayerModel { current: None::<u64> }),
    {
        PlayerModel { current: None }
    }

    /// Request a crossfade to `clip`; reports whether a new crossfade
    /// actually starts.
    pub fn play(&mut self, clip: u64) -> (started: bool)
        ensures
            *final(self) == play_spec(*old(self), clip).0,
            started == play_spec(*old(self), clip).1,
            final(self).current == Some(clip),
    {
        match self.current {
            Some(c) => {
                if c == clip {
                    return false;
                }
            }
            None => {},
        }
        self.current = Some(clip);
        true
    }
}

/// Drive the player from the character's locomotion state for one
/// frame; reports whether a new crossfade started.
pub fn select_animation(
    player: &mut PlayerModel,
    set: &AnimationSet,
    state: LocomotionState,
) -> (started: bool)
    ensures
        *final(player) == play_spec(*old(player), clip_for_spec(*set, state)).0,
        started == play_spec(*old(player), clip_for_spec(*set, state)).1,
        final(player).current == Some(clip_for_spec(*set, state)),
{
    let clip = set.clip_for(state);
    player.play(clip)
}

/// Idempotence law: issuing the same locomotion state again changes
/// nothing and starts no new crossfade, so holding a state for any
/// number of frames yields exactly one logical animation.
pub proof fn lemma_animation_idempotent(p: PlayerModel, set: AnimationSet, state: LocomotionState)
    ensures
        ({
            let once = play_spec(p, clip_for_spec(set, state));
            let again = play_spec(once.0, clip_for_spec(set, state));
            again.0 == once.0 && !again.1
        }),
{
}

} // verus!
