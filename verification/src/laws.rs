use vstd::prelude::*;

use crate::clip::Clip;
use crate::group::AnimationAttribute;
use crate::group::StepView;
use crate::group::trigger_actions;
use crate::state::SpriteFrame;
use crate::state::StateView;
use crate::system::advance_spec;
use crate::system::completes;
use crate::system::installed_sprite;
use crate::system::installed_state;

verus! {

/// A once-mode step resting on its final frame, with nothing queued and
/// nothing pending, holds: a tick of any length leaves the displayed
/// frame on the range's final frame, emits no trigger, and re-establishes
/// this same configuration — so the frame persists, tick after tick,
/// until a new step is enqueued.
pub proof fn lemma_once_terminal_hold(
    st: StateView,
    q: Seq<StepView>,
    sp: SpriteFrame,
    clips: Map<Seq<char>, Clip>,
    dt: u64,
)
    requires
        !st.looping,
        sp.index == st.clip.1,
        q.len() == 0,
        st.triggers.len() == 0,
    ensures
        ({
            let o = advance_spec(st, q, sp, clips, dt);
            &&& o.sprite.index == st.clip.1
            &&& o.emitted =~= Seq::<u64>::empty()
            &&& o.queue == q
            &&& o.state.clip == st.clip
            &&& !o.state.looping
            &&& o.state.triggers.len() == 0
        }),
{
    let o = advance_spec(st, q, sp, clips, dt);
    assert(o.emitted =~= Seq::<u64>::empty());
}

/// A repeating step with nothing queued wraps and nothing more: on a tick
/// that completes the timer at the range's final frame, the displayed
/// frame becomes the range's first frame again, no trigger is emitted,
/// the pending triggers are kept, and the step stays installed.
pub proof fn lemma_repeating_wrap(
    st: StateView,
    q: Seq<StepView>,
    sp: SpriteFrame,
    clips: Map<Seq<char>, Clip>,
    dt: u64,
)
    requires
        st.looping,
        q.len() == 0,
        sp.index == st.clip.1,
        st.timer.elapsed + dt >= st.timer.period,
    ensures
        ({
            let o = advance_spec(st, q, sp, clips, dt);
            &&& o.sprite.index == st.clip.0
            &&& o.queue == q
            &&& o.emitted =~= Seq::<u64>::empty()
            &&& o.state.clip == st.clip
            &&& o.state.looping
            &&& o.state.triggers == st.triggers
        }),
{
}

/// A repeating step is abandoned exactly through the completion check:
/// with a step queued whose clip resolves, the completing tick pops it
/// and the displayed frame becomes the new step's first frame — not the
/// frame the wrap would have shown.
pub proof fn lemma_repeating_completion_installs_next(
    st: StateView,
    q: Seq<StepView>,
    sp: SpriteFrame,
    clips: Map<Seq<char>, Clip>,
    dt: u64,
)
    requires
        st.looping,
        q.len() > 0,
        clips.contains_key(q.first().id),
    ensures
        ({
            let o = advance_spec(st, q, sp, clips, dt);
            &&& o.queue == q.drop_first()
            &&& o.state == installed_state(q.first(), clips[q.first().id])
            &&& o.sprite == installed_sprite(q.first(), clips[q.first().id])
            &&& o.sprite.index == clips[q.first().id].0
            &&& o.emitted == st.triggers
        }),
{
}

/// Installing a step applies its attributes exactly once, at install
/// time: each flip flag of the sprite is raised exactly when the step
/// carries that flip attribute, and the step's trigger actions become
/// pending — while the tick itself emits only the triggers the finished
/// step had pending, never the freshly installed ones.
pub proof fn lemma_attribute_application(
    st: StateView,
    q: Seq<StepView>,
    sp: SpriteFrame,
    clips: Map<Seq<char>, Clip>,
    dt: u64,
)
    requires
        completes(st, q, sp, dt),
        q.len() > 0,
        clips.contains_key(q.first().id),
    ensures
        ({
            let o = advance_spec(st, q, sp, clips, dt);
            let step = q.first();
            &&& o.sprite.flip_x == step.attributes.contains(
                AnimationAttribute::FlipHorizontal,
            )
            &&& o.sprite.flip_y == step.attributes.contains(AnimationAttribute::FlipVertical)
            &&& o.state.triggers == trigger_actions(step.attributes)
            &&& o.emitted == st.triggers
        }),
{
}

/// An unresolvable front step defers the transition: the queue is left
/// unpopped and the active clip and loop mode stay in place. Once the
/// reference resolves, the next tick still finds the step complete and
/// installs that same queued step normally.
pub proof fn lemma_deferred_resolution(
    st: StateView,
    q: Seq<StepView>,
    sp: SpriteFrame,
    clips: Map<Seq<char>, Clip>,
    dt: u64,
    clips2: Map<Seq<char>, Clip>,
    dt2: u64,
)
    requires
        completes(st, q, sp, dt),
        q.len() > 0,
        !clips.contains_key(q.first().id),
        clips2.contains_key(q.first().id),
    ensures
        ({
            let o = advance_spec(st, q, sp, clips, dt);
            let retry = advance_spec(o.state, o.queue, o.sprite, clips2, dt2);
            &&& o.queue == q
            &&& o.state.clip == st.clip
            &&& o.state.looping == st.looping
            &&& o.state.timer.period == st.timer.period
            &&& completes(o.state, o.queue, o.sprite, dt2)
            &&& retry.queue == q.drop_first()
            &&& retry.state == installed_state(q.first(), clips2[q.first().id])
            &&& retry.sprite == installed_sprite(q.first(), clips2[q.first().id])
        }),
{
    let o = advance_spec(st, q, sp, clips, dt);
    if !st.looping {
        assert(o.sprite.index == st.clip.1);
        assert(completes(o.state, o.queue, o.sprite, dt2));
    }
}

} // verus!
