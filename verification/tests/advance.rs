use bevy_action_animation::AnimationAttribute;
use bevy_action_animation::AnimationClip;
use bevy_action_animation::AnimationQueue;
use bevy_action_animation::AnimationState;
use bevy_action_animation::Clip;
use bevy_action_animation::ClipMap;
use bevy_action_animation::SpriteFrame;
use bevy_action_animation::Timer;
use bevy_action_animation::advance_animation;

const PERIOD: u64 = 10;

fn step(id: &str, looping: Option<bool>, attributes: Vec<AnimationAttribute>) -> AnimationClip {
    AnimationClip {
        id: String::from(id),
        frame_speed: PERIOD,
        looping,
        attributes,
    }
}

fn rig(table: &[(&str, Clip)]) -> (AnimationState, AnimationQueue, SpriteFrame, ClipMap) {
    let mut clips = ClipMap::new();
    for (id, clip) in table {
        clips.insert(String::from(*id), *clip);
    }
    let state = AnimationState::new(PERIOD);
    let queue = AnimationQueue::new();
    let sprite = SpriteFrame { index: 0, flip_x: false, flip_y: false };
    (state, queue, sprite, clips)
}

fn push(queue: &mut AnimationQueue, c: AnimationClip) {
    queue.0.push_back(c);
}

#[test]
fn timer_completes_once_however_long_the_delta() {
    let mut t = Timer::new(10);
    t.tick(35);
    assert!(t.just_finished);
    assert_eq!(t.elapsed, 0);
    t.tick(5);
    assert!(!t.just_finished);
    assert_eq!(t.elapsed, 5);
    t.tick(5);
    assert!(t.just_finished);
    assert_eq!(t.elapsed, 0);
}

#[test]
fn ascending_clip_steps_up_then_once_mode_holds() {
    let (mut st, mut q, mut sp, cm) = rig(&[("walk", Clip(0, 3))]);
    push(&mut q, step("walk", None, Vec::new()));
    // The initial one-frame idle state is complete at once, so the first
    // tick installs the queued step.
    let e = advance_animation(&mut st, &mut q, &mut sp, &cm, 0);
    assert!(e.is_empty());
    assert_eq!(st.clip, Clip(0, 3));
    assert_eq!(sp.index, 0);
    assert_eq!(q.len(), 0);
    // One frame per completed period.
    for expect in [1, 2, 3] {
        let e = advance_animation(&mut st, &mut q, &mut sp, &cm, PERIOD);
        assert!(e.is_empty());
        assert_eq!(sp.index, expect);
    }
    // The final frame holds indefinitely with nothing queued.
    for _ in 0..10 {
        let e = advance_animation(&mut st, &mut q, &mut sp, &cm, PERIOD);
        assert!(e.is_empty());
        assert_eq!(sp.index, 3);
        assert_eq!(st.clip, Clip(0, 3));
    }
}

#[test]
fn descending_clip_steps_down() {
    let (mut st, mut q, mut sp, cm) = rig(&[("fall", Clip(5, 2))]);
    push(&mut q, step("fall", None, Vec::new()));
    advance_animation(&mut st, &mut q, &mut sp, &cm, 0);
    assert_eq!(sp.index, 5, "a descending range starts on its first frame");
    for expect in [4, 3, 2] {
        advance_animation(&mut st, &mut q, &mut sp, &cm, PERIOD);
        assert_eq!(sp.index, expect);
    }
    for _ in 0..3 {
        advance_animation(&mut st, &mut q, &mut sp, &cm, PERIOD);
        assert_eq!(sp.index, 2);
    }
}

#[test]
fn repeating_clip_wraps_without_consuming_the_queue() {
    let (mut st, mut q, mut sp, cm) = rig(&[("spin", Clip(0, 3))]);
    push(&mut q, step("spin", Some(true), Vec::new()));
    advance_animation(&mut st, &mut q, &mut sp, &cm, 0);
    assert!(st.looping);
    // With nothing queued the repeating clip cycles: 1 2 3 0 1 ...
    for expect in [1, 2, 3, 0, 1] {
        advance_animation(&mut st, &mut q, &mut sp, &cm, PERIOD);
        assert_eq!(sp.index, expect);
        assert_eq!(st.clip, Clip(0, 3));
    }
}

#[test]
fn repeating_clip_is_replaced_by_a_queued_step_not_by_the_wrap() {
    let (mut st, mut q, mut sp, cm) = rig(&[("spin", Clip(0, 3)), ("next", Clip(10, 12))]);
    push(&mut q, step("spin", Some(true), Vec::new()));
    advance_animation(&mut st, &mut q, &mut sp, &cm, 0);
    // Cycle up to the final frame with nothing queued.
    for expect in [1, 2, 3] {
        advance_animation(&mut st, &mut q, &mut sp, &cm, PERIOD);
        assert_eq!(sp.index, expect);
    }
    // Queue the successor: the next tick pops it, and the displayed frame
    // is the new step's first frame, not the wrapped-to frame 0.
    push(&mut q, step("next", None, Vec::new()));
    advance_animation(&mut st, &mut q, &mut sp, &cm, PERIOD);
    assert_eq!(sp.index, 10);
    assert_eq!(st.clip, Clip(10, 12));
    assert!(!st.looping);
    assert_eq!(q.len(), 0);
}

#[test]
fn repeating_clip_yields_mid_cycle_once_a_step_is_queued() {
    let (mut st, mut q, mut sp, cm) = rig(&[("spin", Clip(0, 3)), ("next", Clip(10, 12))]);
    push(&mut q, step("spin", Some(true), Vec::new()));
    advance_animation(&mut st, &mut q, &mut sp, &cm, 0);
    advance_animation(&mut st, &mut q, &mut sp, &cm, PERIOD);
    assert_eq!(sp.index, 1, "mid-cycle, far from the final frame");
    // A repeating step completes as soon as something is queued; it does
    // not wait for the end of its cycle.
    push(&mut q, step("next", None, Vec::new()));
    advance_animation(&mut st, &mut q, &mut sp, &cm, 0);
    assert_eq!(st.clip, Clip(10, 12));
    assert_eq!(sp.index, 10);
}

#[test]
fn attributes_apply_at_install_and_triggers_fire_at_completion() {
    let (mut st, mut q, mut sp, cm) = rig(&[("flash", Clip(4, 5))]);
    push(
        &mut q,
        step(
            "flash",
            None,
            vec![AnimationAttribute::FlipHorizontal, AnimationAttribute::EmitTrigger(77)],
        ),
    );
    let e = advance_animation(&mut st, &mut q, &mut sp, &cm, 0);
    assert!(e.is_empty(), "a trigger must not fire at install time");
    assert!(sp.flip_x);
    assert!(!sp.flip_y);
    assert_eq!(sp.index, 4);
    assert_eq!(st.triggers, vec![77]);
    // Stepping to the final frame completes the step; its trigger fires
    // exactly once, on the completing tick.
    let e = advance_animation(&mut st, &mut q, &mut sp, &cm, PERIOD);
    assert_eq!(sp.index, 5);
    assert_eq!(e, vec![77]);
    assert!(st.triggers.is_empty());
    let e = advance_animation(&mut st, &mut q, &mut sp, &cm, PERIOD);
    assert!(e.is_empty(), "a drained trigger must not fire again");
}

#[test]
fn triggers_emit_in_attribute_order() {
    let (mut st, mut q, mut sp, cm) = rig(&[("flash", Clip(0, 0))]);
    push(
        &mut q,
        step(
            "flash",
            None,
            vec![
                AnimationAttribute::EmitTrigger(7),
                AnimationAttribute::FlipVertical,
                AnimationAttribute::EmitTrigger(8),
            ],
        ),
    );
    advance_animation(&mut st, &mut q, &mut sp, &cm, 0);
    assert_eq!(st.triggers, vec![7, 8]);
    assert!(sp.flip_y);
    assert!(!sp.flip_x);
    // The one-frame clip is complete at once; the next tick emits.
    let e = advance_animation(&mut st, &mut q, &mut sp, &cm, 0);
    assert_eq!(e, vec![7, 8]);
}

#[test]
fn installing_a_step_resets_the_flip_flags() {
    let (mut st, mut q, mut sp, cm) = rig(&[("a", Clip(0, 0)), ("b", Clip(1, 1))]);
    push(&mut q, step("a", None, vec![AnimationAttribute::FlipHorizontal]));
    push(&mut q, step("b", None, Vec::new()));
    advance_animation(&mut st, &mut q, &mut sp, &cm, 0);
    assert!(sp.flip_x);
    advance_animation(&mut st, &mut q, &mut sp, &cm, 0);
    assert_eq!(sp.index, 1);
    assert!(!sp.flip_x, "a step without flips clears the flags");
}

#[test]
fn unresolvable_clip_defers_without_consuming_the_step() {
    let (mut st, mut q, mut sp, mut cm) = rig(&[]);
    push(&mut q, step("ghost", None, Vec::new()));
    let before_clip = st.clip;
    for _ in 0..3 {
        let e = advance_animation(&mut st, &mut q, &mut sp, &cm, PERIOD);
        assert!(e.is_empty());
        assert_eq!(q.len(), 1, "the unresolvable step stays queued");
        assert_eq!(st.clip, before_clip);
        assert_eq!(sp.index, 0);
    }
    // Once the table learns the id, the next tick transitions normally.
    cm.insert(String::from("ghost"), Clip(7, 9));
    let e = advance_animation(&mut st, &mut q, &mut sp, &cm, PERIOD);
    assert!(e.is_empty());
    assert_eq!(q.len(), 0);
    assert_eq!(st.clip, Clip(7, 9));
    assert_eq!(sp.index, 7);
}

#[test]
fn clip_map_lookup_and_replacement() {
    let mut cm = ClipMap::new();
    assert!(cm.get(&String::from("walk")).is_none());
    cm.insert(String::from("walk"), Clip(0, 3));
    cm.insert(String::from("run"), Clip(4, 7));
    assert_eq!(cm.get(&String::from("walk")), Some(Clip(0, 3)));
    assert_eq!(cm.get(&String::from("run")), Some(Clip(4, 7)));
    cm.insert(String::from("walk"), Clip(8, 9));
    assert_eq!(cm.get(&String::from("walk")), Some(Clip(8, 9)));
    let copy = cm.clone();
    assert_eq!(copy.get(&String::from("run")), Some(Clip(4, 7)));
}

#[test]
fn admits_frame_follows_the_range_either_direction() {
    assert!(Clip(2, 5).admits_frame(2));
    assert!(Clip(2, 5).admits_frame(5));
    assert!(!Clip(2, 5).admits_frame(6));
    assert!(Clip(5, 2).admits_frame(3));
    assert!(!Clip(5, 2).admits_frame(1));
    assert!(!Clip(5, 2).admits_frame(6));
}
