use vstd::prelude::*;

use std::collections::VecDeque;

use crate::clip::Clip;
use crate::group::AnimationClip;
use crate::group::StepView;
use crate::group::step_views;
use crate::timer::Timer;

verus! {

/// The per-entity sprite sink the advance routine writes: the frame index
/// shown and the two flip flags. Rendering reads it; this crate never
/// interprets it.
#[derive(Clone, Copy, Debug, PartialEq, Eq, Structural)]
pub struct SpriteFrame {
    /// The sprite-sheet frame currently displayed.
    pub index: usize,
    /// Whether the sprite is mirrored horizontally.
    pub flip_x: bool,
    /// Whether the sprite is mirrored vertically.
    pub flip_y: bool,
}

/// What is playing right now on one entity: the active frame range, its
/// loop mode, the frame timer, and the trigger actions pending for the
/// step's completion.
#[derive(Debug)]
pub struct AnimationState {
    /// The active frame range.
    pub clip: Clip,
    /// The frame timer of the active step.
    pub timer: Timer,
    /// Whether the active step repeats until a successor is queued.
    pub looping: bool,
    /// Emitted, in order, when the active step completes.
    pub triggers: Vec<u64>,
}

/// The mathematical image of an [`AnimationState`].
#[verifier::ext_equal]
pub struct StateView {
    pub clip: Clip,
    pub timer: Timer,
    pub looping: bool,
    pub triggers: Seq<u64>,
}

impl View for AnimationState {
    type V = StateView;

    open spec fn view(&self) -> StateView {
        StateView {
            clip: self.clip,
            timer: self.timer,
            looping: self.looping,
            triggers: self.triggers@,
        }
    }
}

impl AnimationState {
    /// The state an entity starts in: a one-frame idle range, a
    /// non-repeating step with the given period, and nothing pending.
    pub fn new(period: u64) -> (r: AnimationState)
        ensures
            r@ == (StateView {
                clip: Clip(0, 0),
                timer: Timer { elapsed: 0, period, just_finished: false },
                looping: false,
                triggers: Seq::empty(),
            }),
    {
        let r = AnimationState {
            clip: Clip(0, 0),
            timer: Timer::new(period),
            looping: false,
            triggers: Vec::new(),
        };
        proof {
            assert(r@ =~= StateView {
                clip: Clip(0, 0),
                timer: Timer { elapsed: 0, period, just_finished: false },
                looping: false,
                triggers: Seq::empty(),
            });
        }
        r
    }
}

impl Clone for AnimationState {
    /// A copy describing the same playback state.
    fn clone(&self) -> (r: Self)
        ensures
            r@ == self@,
    {
        let triggers = self.triggers.clone();
        proof {
            assert forall|i: int| 0 <= i < triggers@.len() implies
                triggers@[i] == self.triggers@[i] by {
                assert(cloned::<u64>(self.triggers@[i], triggers@[i]));
            }
            assert(triggers@ =~= self.triggers@);
        }
        let r = AnimationState {
            clip: self.clip,
            timer: self.timer,
            looping: self.looping,
            triggers,
        };
        proof {
            assert(r@ =~= self@);
        }
        r
    }
}

/// The per-entity FIFO of steps awaiting playback, seen in specifications
/// as the sequence of the steps' images, front first.
#[derive(Debug)]
pub struct AnimationQueue(pub VecDeque<AnimationClip>);

impl View for AnimationQueue {
    type V = Seq<StepView>;

    open spec fn view(&self) -> Seq<StepView> {
        step_views(self.0@)
    }
}

impl AnimationQueue {
    /// An empty queue.
    pub fn new() -> (r: AnimationQueue)
        ensures
            r@ == Seq::<StepView>::empty(),
    {
        let r = AnimationQueue(VecDeque::new());
        proof {
            assert(r@ =~= Seq::<StepView>::empty());
        }
        r
    }

    /// How many steps are pending.
    pub fn len(&self) -> (n: usize)
        ensures
            n == self@.len(),
    {
        self.0.len()
    }
}

impl Clone for AnimationQueue {
    /// A copy holding the same pending steps.
    fn clone(&self) -> (r: Self)
        ensures
            r@ == self@,
    {
        let inner = self.0.clone();
        proof {
            assert forall|i: int| 0 <= i < inner@.len() implies
                inner@[i]@ == self.0@[i]@ by {
                assert(cloned::<AnimationClip>(self.0@[i], inner@[i]));
            }
            assert(step_views(inner@) =~= step_views(self.0@));
        }
        AnimationQueue(inner)
    }
}

} // verus!
