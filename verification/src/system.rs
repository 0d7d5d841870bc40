use vstd::prelude::*;

use rand::Rng;
use rand::seq::SliceRandom;

use crate::clip::Clip;
use crate::clip::ClipMap;
use crate::clip::frame_in_range;
use crate::group::AnimationAttribute;
use crate::group::AnimationClip;
use crate::group::AnimationClipOrder;
use crate::group::AnimationMap;
use crate::group::AnimationSet;
use crate::group::SetView;
use crate::group::StepView;
use crate::group::effective_order;
use crate::group::lemma_step_views_push;
use crate::group::loop_flag;
use crate::group::step_views;
use crate::group::trigger_actions;
use crate::state::AnimationQueue;
use crate::state::AnimationState;
use crate::state::SpriteFrame;
use crate::state::StateView;
use crate::timer::Timer;
use crate::timer::timer_after_tick;

verus! {

/// Relies on rand's `SliceRandom::shuffle` with the process-wide
/// `thread_rng`: a Fisher–Yates walk that only swaps elements of the
/// slice in place, so the steps afterwards are, as a multiset, exactly
/// the steps before, whatever order the generator picked.
#[verifier::external_body]
fn shuffle_steps(steps: &mut Vec<AnimationClip>)
    ensures
        final(steps)@.len() == old(steps)@.len(),
        final(steps)@.to_multiset() == old(steps)@.to_multiset(),
        step_views(final(steps)@).to_multiset() == step_views(old(steps)@).to_multiset(),
{
    steps.shuffle(&mut rand::thread_rng());
}

/// Relies on rand's `Rng::gen_range` over `0..n` with the process-wide
/// `thread_rng`: it panics only on an empty range and returns a member
/// of the range, whichever one the generator picked.
#[verifier::external_body]
fn pick_index(n: usize) -> (r: usize)
    requires
        1 <= n,
    ensures
        r < n,
{
    rand::thread_rng().gen_range(0..n)
}

/// How a queue holding `pre` may read after `set` is expanded into it:
/// what of `post` the queueing stage guarantees, by ordering policy.
/// Sequential expansion appends the set's steps exactly in catalog order;
/// random expansion appends some permutation of them — each step exactly
/// once; random pick appends exactly one of them (and nothing, for a set
/// with no steps). Whatever the policy, the steps already queued stay in
/// place, ahead of the expansion.
pub open spec fn expanded(pre: Seq<StepView>, post: Seq<StepView>, set: SetView) -> bool {
    match effective_order(set.ordering) {
        AnimationClipOrder::Sequential => post == pre + set.clips,
        AnimationClipOrder::Random => {
            &&& post.len() == pre.len() + set.clips.len()
            &&& post.take(pre.len() as int) == pre
            &&& post.skip(pre.len() as int).to_multiset() == set.clips.to_multiset()
        },
        AnimationClipOrder::RandomSelect => {
            if set.clips.len() == 0 {
                post == pre
            } else {
                &&& post.len() == pre.len() + 1
                &&& post.take(pre.len() as int) == pre
                &&& exists|i: int| 0 <= i < set.clips.len() && post.last() == set.clips[i]
            }
        },
    }
}

/// Expand `set` into `queue` as the set's ordering policy directs:
/// sequentially in catalog order, in a random permutation, or as one
/// randomly chosen step. The steps already queued are left in place and
/// the expansion is appended behind them; each appended entry is a copy
/// of a catalog step, never an alias.
pub fn queue_animation_set(queue: &mut AnimationQueue, set: &AnimationSet)
    ensures
        expanded(old(queue)@, final(queue)@, set@),
{
    let ghost pre = queue@;
    let order = match set.ordering {
        Some(o) => o,
        None => AnimationClipOrder::Sequential,
    };
    match order {
        AnimationClipOrder::Sequential => {
            let n = set.clips.len();
            let mut i: usize = 0;
            while i < n
                invariant
                    i <= n,
                    n == set.clips@.len(),
                    queue@ == pre + step_views(set.clips@).take(i as int),
                decreases n - i,
            {
                let ghost inner0 = queue.0@;
                let c = set.clips[i].clone();
                queue.0.push_back(c);
                proof {
                    lemma_step_views_push(inner0, c);
                    assert(queue@ =~= pre + step_views(set.clips@).take(i + 1));
                }
                i += 1;
            }
            proof {
                assert(step_views(set.clips@).take(n as int) =~= set@.clips);
            }
        }
        AnimationClipOrder::Random => {
            let n = set.clips.len();
            let mut steps: Vec<AnimationClip> = Vec::new();
            let mut i: usize = 0;
            while i < n
                invariant
                    i <= n,
                    n == set.clips@.len(),
                    steps@.len() == i,
                    step_views(steps@) == step_views(set.clips@).take(i as int),
                decreases n - i,
            {
                steps.push(set.clips[i].clone());
                proof {
                    assert(step_views(steps@) =~= step_views(set.clips@).take(i + 1));
                }
                i += 1;
            }
            proof {
                assert(step_views(steps@) =~= set@.clips);
            }
            shuffle_steps(&mut steps);
            let ghost shuffled = step_views(steps@);
            proof {
                assert(shuffled.to_multiset() == set@.clips.to_multiset());
            }
            let mut j: usize = 0;
            while j < n
                invariant
                    j <= n,
                    n == steps@.len(),
                    shuffled == step_views(steps@),
                    queue@ == pre + shuffled.take(j as int),
                decreases n - j,
            {
                let ghost inner0 = queue.0@;
                let c = steps[j].clone();
                queue.0.push_back(c);
                proof {
                    lemma_step_views_push(inner0, c);
                    assert(queue@ =~= pre + shuffled.take(j + 1));
                }
                j += 1;
            }
            proof {
                assert(shuffled.take(n as int) =~= shuffled);
                assert(queue@.take(pre.len() as int) =~= pre);
                assert(queue@.skip(pre.len() as int) =~= shuffled);
            }
        }
        AnimationClipOrder::RandomSelect => {
            let n = set.clips.len();
            if n >= 1 {
                let r = pick_index(n);
                let ghost inner0 = queue.0@;
                let c = set.clips[r].clone();
                queue.0.push_back(c);
                proof {
                    lemma_step_views_push(inner0, c);
                    assert(queue@ =~= pre.push(set@.clips[r as int]));
                    assert(queue@.take(pre.len() as int) =~= pre);
                    assert(queue@.last() == set@.clips[r as int]);
                }
            }
        }
    }
}

/// Expand the animation set that `map` binds to `action` into `queue`;
/// an action the catalog does not bind is silently ignored and leaves
/// the queue untouched.
pub fn queue_action(queue: &mut AnimationQueue, map: &AnimationMap, action: u64)
    ensures
        map@.contains_key(action) ==> expanded(old(queue)@, final(queue)@, map@[action]),
        !map@.contains_key(action) ==> final(queue)@ == old(queue)@,
{
    match map.get(action) {
        Some(set) => queue_animation_set(queue, set),
        None => (),
    }
}

/// The frame shown after a timer completion, stepped from `index` along
/// `clip`: hold (or wrap, when looping) at the range's final frame, and
/// otherwise move one frame in the range's direction.
pub open spec fn next_frame(index: usize, clip: Clip, looping: bool) -> usize
    recommends
        frame_in_range(index, clip),
{
    if index == clip.1 {
        if looping {
            clip.0
        } else {
            clip.1
        }
    } else if clip.0 < clip.1 {
        (index + 1) as usize
    } else {
        (index - 1) as usize
    }
}

/// Whether the active step counts as complete this tick: a once-mode step
/// completes on its final frame, a repeating step exactly when something
/// is queued to replace it.
pub open spec fn is_complete(looping: bool, index: usize, clip: Clip, queue_len: nat) -> bool {
    if looping {
        queue_len > 0
    } else {
        index == clip.1
    }
}

/// The playback state a freshly installed step begins in: the resolved
/// range, a reset timer with the step's period, the step's loop mode, and
/// the step's trigger actions pending.
pub open spec fn installed_state(step: StepView, clip: Clip) -> StateView {
    StateView {
        clip,
        timer: Timer { elapsed: 0, period: step.frame_speed, just_finished: false },
        looping: loop_flag(step.looping),
        triggers: trigger_actions(step.attributes),
    }
}

/// The sprite a freshly installed step shows: the range's first frame,
/// with each flip flag set exactly when the step carries that attribute.
pub open spec fn installed_sprite(step: StepView, clip: Clip) -> SpriteFrame {
    SpriteFrame {
        index: clip.0,
        flip_x: step.attributes.contains(AnimationAttribute::FlipHorizontal),
        flip_y: step.attributes.contains(AnimationAttribute::FlipVertical),
    }
}

/// Whether the tick that advances `st`, `q`, `sp` by `dt` finds the
/// active step complete, the displayed frame having been stepped first.
pub open spec fn completes(st: StateView, q: Seq<StepView>, sp: SpriteFrame, dt: u64) -> bool {
    let t1 = timer_after_tick(st.timer, dt);
    let idx1 = if t1.just_finished {
        next_frame(sp.index, st.clip, st.looping)
    } else {
        sp.index
    };
    is_complete(st.looping, idx1, st.clip, q.len())
}

/// What one advance tick yields: the playback state, queue and sprite
/// after the tick, and the trigger actions emitted during it, in order.
#[verifier::ext_equal]
pub struct AdvanceOutcome {
    pub state: StateView,
    pub queue: Seq<StepView>,
    pub sprite: SpriteFrame,
    pub emitted: Seq<u64>,
}

/// The advance transition: tick the timer; on completion of the timer
/// step the frame; then, if the active step is complete, emit its pending
/// triggers and, where the queue holds a resolvable successor, install it.
/// An unresolvable successor is left queued untouched, to be retried.
pub open spec fn advance_spec(
    st: StateView,
    q: Seq<StepView>,
    sp: SpriteFrame,
    clips: Map<Seq<char>, Clip>,
    dt: u64,
) -> AdvanceOutcome {
    let t1 = timer_after_tick(st.timer, dt);
    let idx1 = if t1.just_finished {
        next_frame(sp.index, st.clip, st.looping)
    } else {
        sp.index
    };
    let sp1 = SpriteFrame { index: idx1, flip_x: sp.flip_x, flip_y: sp.flip_y };
    let st1 = StateView { timer: t1, ..st };
    if !completes(st, q, sp, dt) {
        AdvanceOutcome { state: st1, queue: q, sprite: sp1, emitted: Seq::empty() }
    } else {
        let st2 = StateView { triggers: Seq::empty(), ..st1 };
        if q.len() == 0 {
            AdvanceOutcome { state: st2, queue: q, sprite: sp1, emitted: st.triggers }
        } else {
            let step = q.first();
            if !clips.contains_key(step.id) {
                AdvanceOutcome { state: st2, queue: q, sprite: sp1, emitted: st.triggers }
            } else {
                let c = clips[step.id];
                AdvanceOutcome {
                    state: installed_state(step, c),
                    queue: q.drop_first(),
                    sprite: installed_sprite(step, c),
                    emitted: st.triggers,
                }
            }
        }
    }
}

/// Apply a step's attributes in order to a fresh install: flips raise the
/// sprite's flags, triggers are appended to the pending list.
fn apply_attributes(attrs: &Vec<AnimationAttribute>, state: &mut AnimationState, sprite: &mut SpriteFrame)
    requires
        old(state).triggers@.len() == 0,
        old(sprite).flip_x == false,
        old(sprite).flip_y == false,
    ensures
        final(state)@ == (StateView { triggers: trigger_actions(attrs@), ..old(state)@ }),
        *final(sprite) == (SpriteFrame {
            flip_x: attrs@.contains(AnimationAttribute::FlipHorizontal),
            flip_y: attrs@.contains(AnimationAttribute::FlipVertical),
            index: old(sprite).index,
        }),
{
    let ghost st0 = old(state)@;
    let ghost sp0 = *old(sprite);
    let n = attrs.len();
    let mut i: usize = 0;
    while i < n
        invariant
            i <= n,
            n == attrs@.len(),
            state@ == (StateView { triggers: trigger_actions(attrs@.take(i as int)), ..st0 }),
            *sprite == (SpriteFrame {
                flip_x: attrs@.take(i as int).contains(AnimationAttribute::FlipHorizontal),
                flip_y: attrs@.take(i as int).contains(AnimationAttribute::FlipVertical),
                index: sp0.index,
            }),
        decreases n - i,
    {
        let ghost prefix = attrs@.take(i as int);
        let ghost next_prefix = attrs@.take(i + 1);
        proof {
            assert(next_prefix.drop_last() =~= prefix);
            assert(next_prefix.last() == attrs@[i as int]);
            assert forall|a: AnimationAttribute| #[trigger] next_prefix.contains(a) implies
                prefix.contains(a) || a == attrs@[i as int] by {
                let w = choose|w: int| 0 <= w < next_prefix.len() && next_prefix[w] == a;
                if w < i {
                    assert(prefix[w] == a);
                }
            }
            assert forall|a: AnimationAttribute| prefix.contains(a) implies
                next_prefix.contains(a) by {
                let w = choose|w: int| 0 <= w < prefix.len() && prefix[w] == a;
                assert(next_prefix[w] == a);
            }
            assert(next_prefix[i as int] == attrs@[i as int]);
            assert(next_prefix.contains(attrs@[i as int]));
        }
        match attrs[i] {
            AnimationAttribute::FlipHorizontal => {
                sprite.flip_x = true;
            }
            AnimationAttribute::FlipVertical => {
                sprite.flip_y = true;
            }
            AnimationAttribute::EmitTrigger(a) => {
                state.triggers.push(a);
            }
        }
        i += 1;
    }
    proof {
        assert(attrs@.take(n as int) =~= attrs@);
    }
}

/// Advance one entity's animation by `dt` host clock units, mutating its
/// playback state, queue and sprite exactly as [`advance_spec`] describes,
/// and returning the trigger actions emitted this tick, in order.
///
/// The displayed frame must lie inside the active range; every state this
/// crate's functions produce keeps it there.
pub fn advance_animation(
    state: &mut AnimationState,
    queue: &mut AnimationQueue,
    sprite: &mut SpriteFrame,
    clips: &ClipMap,
    dt: u64,
) -> (emitted: Vec<u64>)
    requires
        frame_in_range(old(sprite).index, old(state).clip),
    ensures
        ({
            let o = advance_spec(old(state)@, old(queue)@, *old(sprite), clips@, dt);
            &&& final(state)@ == o.state
            &&& final(queue)@ == o.queue
            &&& *final(sprite) == o.sprite
            &&& emitted@ == o.emitted
        }),
        frame_in_range(final(sprite).index, final(state).clip),
{
    let ghost st0 = old(state)@;
    let ghost q0 = old(queue)@;
    let ghost sp0 = *old(sprite);

    state.timer.tick(dt);
    if state.timer.just_finished {
        let idx = sprite.index;
        let c = state.clip;
        sprite.index = if idx == c.1 {
            if state.looping {
                c.0
            } else {
                c.1
            }
        } else if c.0 < c.1 {
            idx + 1
        } else {
            idx - 1
        };
    }
    proof {
        assert(frame_in_range(sprite.index, state.clip));
    }

    let complete: bool = if state.looping {
        queue.0.len() > 0
    } else {
        sprite.index == state.clip.1
    };
    let mut emitted: Vec<u64> = Vec::new();
    if !complete {
        return emitted;
    }
    core::mem::swap(&mut state.triggers, &mut emitted);
    if queue.0.len() == 0 {
        return emitted;
    }

    let front = &queue.0[0];
    proof {
        assert(front@ == q0.first());
    }
    let resolved = clips.get(&front.id);
    match resolved {
        None => emitted,
        Some(c) => {
            let next = queue.0.pop_front().unwrap();
            proof {
                assert(next@ == q0.first());
                assert(step_views(queue.0@) =~= q0.drop_first());
            }
            state.clip = c;
            state.looping = match next.looping {
                Some(b) => b,
                None => false,
            };
            state.timer = Timer::new(next.frame_speed);
            sprite.index = c.0;
            sprite.flip_x = false;
            sprite.flip_y = false;
            apply_attributes(&next.attributes, state, sprite);
            proof {
                let o = advance_spec(st0, q0, sp0, clips@, dt);
                assert(state@ =~= o.state);
                assert(*sprite =~= o.sprite);
            }
            emitted
        }
    }
}

} // verus!
