use bevy_action_animation::AnimationClip;
use bevy_action_animation::AnimationClipOrder;
use bevy_action_animation::AnimationMap;
use bevy_action_animation::AnimationQueue;
use bevy_action_animation::AnimationSet;
use bevy_action_animation::queue_animation_set;

fn step(id: &str) -> AnimationClip {
    AnimationClip {
        id: String::from(id),
        frame_speed: 100,
        looping: None,
        attributes: Vec::new(),
    }
}

fn set_of(ids: &[&str], ordering: Option<AnimationClipOrder>) -> AnimationSet {
    AnimationSet {
        clips: ids.iter().map(|id| step(id)).collect(),
        ordering,
    }
}

fn queued_ids(queue: &AnimationQueue) -> Vec<String> {
    queue.0.iter().map(|c| c.id.clone()).collect()
}

#[test]
fn sequential_appends_in_catalog_order() {
    let mut queue = AnimationQueue::new();
    queue_animation_set(&mut queue, &set_of(&["a", "b", "c"], None));
    assert_eq!(queued_ids(&queue), vec!["a", "b", "c"]);
}

#[test]
fn sequential_appends_behind_prior_contents() {
    let mut queue = AnimationQueue::new();
    queue_animation_set(&mut queue, &set_of(&["a", "b"], Some(AnimationClipOrder::Sequential)));
    queue_animation_set(&mut queue, &set_of(&["c"], Some(AnimationClipOrder::Sequential)));
    assert_eq!(queued_ids(&queue), vec!["a", "b", "c"]);
}

#[test]
fn sequential_is_the_default_ordering() {
    let mut queue = AnimationQueue::new();
    queue_animation_set(&mut queue, &set_of(&["x", "y"], None));
    assert_eq!(queued_ids(&queue), vec!["x", "y"]);
}

#[test]
fn random_appends_a_permutation() {
    for _ in 0..100 {
        let mut queue = AnimationQueue::new();
        queue_animation_set(&mut queue, &set_of(&["a", "b"], Some(AnimationClipOrder::Sequential)));
        queue_animation_set(&mut queue, &set_of(&["p", "q", "r"], Some(AnimationClipOrder::Random)));
        let ids = queued_ids(&queue);
        assert_eq!(&ids[..2], &["a", "b"], "prior contents must stay in place");
        let mut appended: Vec<String> = ids[2..].to_vec();
        appended.sort();
        assert_eq!(appended, vec!["p", "q", "r"], "each step exactly once");
    }
}

#[test]
fn random_actually_permutes() {
    // Over many passes the appended order must vary; an expansion that
    // never permutes would leave the catalog order every time.
    let mut seen_orders = std::collections::HashSet::new();
    for _ in 0..200 {
        let mut queue = AnimationQueue::new();
        queue_animation_set(
            &mut queue,
            &set_of(&["p", "q", "r", "s"], Some(AnimationClipOrder::Random)),
        );
        seen_orders.insert(queued_ids(&queue).join(","));
    }
    assert!(seen_orders.len() > 1, "the shuffle never changed the order");
}

#[test]
fn random_select_appends_exactly_one_member() {
    for _ in 0..100 {
        let mut queue = AnimationQueue::new();
        queue_animation_set(&mut queue, &set_of(&["a"], Some(AnimationClipOrder::Sequential)));
        queue_animation_set(
            &mut queue,
            &set_of(&["p", "q", "r"], Some(AnimationClipOrder::RandomSelect)),
        );
        let ids = queued_ids(&queue);
        assert_eq!(ids.len(), 2, "the queue grows by exactly one step");
        assert_eq!(ids[0], "a");
        assert!(ids[1] == "p" || ids[1] == "q" || ids[1] == "r");
    }
}

#[test]
fn random_select_reaches_every_member() {
    let mut seen = std::collections::HashSet::new();
    for _ in 0..300 {
        let mut queue = AnimationQueue::new();
        queue_animation_set(
            &mut queue,
            &set_of(&["p", "q", "r"], Some(AnimationClipOrder::RandomSelect)),
        );
        seen.insert(queued_ids(&queue)[0].clone());
    }
    assert_eq!(seen.len(), 3, "every member must be reachable");
}

#[test]
fn random_select_of_empty_set_appends_nothing() {
    let mut queue = AnimationQueue::new();
    queue_animation_set(&mut queue, &set_of(&[], Some(AnimationClipOrder::RandomSelect)));
    assert_eq!(queue.len(), 0);
}

#[test]
fn queued_steps_are_copies_of_the_catalog() {
    let set = set_of(&["a"], None);
    let mut queue = AnimationQueue::new();
    queue_animation_set(&mut queue, &set);
    queue_animation_set(&mut queue, &set);
    // The set is untouched and both entries carry its step's data.
    assert_eq!(set.clips.len(), 1);
    assert_eq!(queue.len(), 2);
    for c in queue.0.iter() {
        assert_eq!(c.id, "a");
        assert_eq!(c.frame_speed, 100);
    }
}

#[test]
fn queue_action_expands_bound_actions_and_ignores_others() {
    let mut map = AnimationMap::new();
    map.insert(4, set_of(&["a", "b"], None));
    let mut queue = AnimationQueue::new();
    bevy_action_animation::queue_action(&mut queue, &map, 9);
    assert_eq!(queue.len(), 0, "an unbound action leaves the queue untouched");
    bevy_action_animation::queue_action(&mut queue, &map, 4);
    assert_eq!(queued_ids(&queue), vec!["a", "b"]);
}

#[test]
fn animation_map_binds_and_replaces() {
    let mut map = AnimationMap::new();
    assert!(map.get(1).is_none());
    map.insert(1, set_of(&["a", "b"], None));
    map.insert(2, set_of(&["c"], Some(AnimationClipOrder::RandomSelect)));
    assert_eq!(map.get(1).unwrap().clips.len(), 2);
    assert_eq!(map.get(2).unwrap().clips[0].id, "c");
    assert!(map.get(3).is_none());
    map.insert(1, set_of(&["z"], None));
    let replaced = map.get(1).unwrap();
    assert_eq!(replaced.clips.len(), 1);
    assert_eq!(replaced.clips[0].id, "z");
}
