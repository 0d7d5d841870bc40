use vstd::prelude::*;

verus! {

/// An effect a step carries: the flips are applied to the sprite the
/// moment the step is installed; a trigger is recorded at install time
/// and emitted when the step later completes.
///
/// Actions are carried as plain `u64` identity values; the integrator
/// maps its own action alphabet onto them.
#[derive(Clone, Copy, Debug, PartialEq, Eq, Structural)]
pub enum AnimationAttribute {
    /// Set the sprite's horizontal flip flag.
    FlipHorizontal,
    /// Set the sprite's vertical flip flag.
    FlipVertical,
    /// Emit this action when the step completes.
    EmitTrigger(u64),
}

/// One scheduled playback unit: a clip reference plus timing, loop mode
/// and attributes.
#[derive(Debug)]
pub struct AnimationClip {
    /// The identifier of the frame range, resolved against a [`crate::ClipMap`].
    pub id: String,
    /// The period of one frame, in host clock units.
    pub frame_speed: u64,
    /// `Some(true)` repeats the clip until a successor is queued; anything
    /// else plays it once.
    pub looping: Option<bool>,
    /// Applied in order, exactly once, when the step is installed.
    pub attributes: Vec<AnimationAttribute>,
}

/// The mathematical image of an [`AnimationClip`].
#[verifier::ext_equal]
pub struct StepView {
    pub id: Seq<char>,
    pub frame_speed: u64,
    pub looping: Option<bool>,
    pub attributes: Seq<AnimationAttribute>,
}

impl View for AnimationClip {
    type V = StepView;

    open spec fn view(&self) -> StepView {
        StepView {
            id: self.id@,
            frame_speed: self.frame_speed,
            looping: self.looping,
            attributes: self.attributes@,
        }
    }
}

impl Clone for AnimationClip {
    /// A copy describing the same step.
    fn clone(&self) -> (r: Self)
        ensures
            r@ == self@,
    {
        let n = self.attributes.len();
        let mut attributes: Vec<AnimationAttribute> = Vec::new();
        let mut i: usize = 0;
        while i < n
            invariant
                i <= n,
                n == self.attributes@.len(),
                attributes@ == self.attributes@.take(i as int),
            decreases n - i,
        {
            attributes.push(self.attributes[i]);
            proof {
                assert(attributes@ =~= self.attributes@.take(i + 1));
            }
            i += 1;
        }
        proof {
            assert(attributes@ =~= self.attributes@);
        }
        let r = AnimationClip {
            id: self.id.clone(),
            frame_speed: self.frame_speed,
            looping: self.looping,
            attributes,
        };
        proof {
            assert(r@ =~= self@);
        }
        r
    }
}

/// The loop mode a step's `looping` field denotes: only an explicit
/// `Some(true)` makes the installed clip repeat.
pub open spec fn loop_flag(looping: Option<bool>) -> bool {
    looping == Some(true)
}

/// The trigger actions named by `attrs`, in attribute order.
pub open spec fn trigger_actions(attrs: Seq<AnimationAttribute>) -> Seq<u64>
    decreases attrs.len(),
{
    if attrs.len() == 0 {
        Seq::empty()
    } else {
        let init = trigger_actions(attrs.drop_last());
        match attrs.last() {
            AnimationAttribute::EmitTrigger(a) => init.push(a),
            _ => init,
        }
    }
}

/// The images of a row of steps, in order.
pub open spec fn step_views(s: Seq<AnimationClip>) -> Seq<StepView> {
    s.map_values(|c: AnimationClip| c@)
}

/// Taking images commutes with appending a step.
pub proof fn lemma_step_views_push(s: Seq<AnimationClip>, c: AnimationClip)
    ensures
        step_views(s.push(c)) == step_views(s).push(c@),
{
    assert(step_views(s.push(c)) =~= step_views(s).push(c@));
}

/// The order in which the steps of a set are appended to the queue.
#[derive(Clone, Copy, Debug, PartialEq, Eq, Structural)]
pub enum AnimationClipOrder {
    /// In the order they appear; the default.
    Sequential,
    /// In a uniformly random order.
    Random,
    /// One step of the set, chosen uniformly at random.
    RandomSelect,
}

/// The ordering a set with the given `ordering` field obeys:
/// [`AnimationClipOrder::Sequential`] where none is named.
pub open spec fn effective_order(ordering: Option<AnimationClipOrder>) -> AnimationClipOrder {
    match ordering {
        Some(o) => o,
        None => AnimationClipOrder::Sequential,
    }
}

/// The ordered steps bound to one action, with their ordering policy.
#[derive(Debug)]
pub struct AnimationSet {
    /// The steps, in catalog order.
    pub clips: Vec<AnimationClip>,
    /// How the steps are expanded into the queue; `None` means sequential.
    pub ordering: Option<AnimationClipOrder>,
}

/// The mathematical image of an [`AnimationSet`].
#[verifier::ext_equal]
pub struct SetView {
    pub clips: Seq<StepView>,
    pub ordering: Option<AnimationClipOrder>,
}

impl View for AnimationSet {
    type V = SetView;

    open spec fn view(&self) -> SetView {
        SetView { clips: step_views(self.clips@), ordering: self.ordering }
    }
}

/// A catalog binding action values to animation sets, seen in
/// specifications as a [`Map`] from the action to the set's image.
pub struct AnimationMap {
    entries: Vec<(u64, AnimationSet)>,
}

impl AnimationMap {
    /// The action bound by entry `i`.
    spec fn key_at(&self, i: int) -> u64 {
        self.entries@[i].0
    }

    /// Whether some entry binds the action `a`.
    spec fn has_key(&self, a: u64) -> bool {
        exists|i: int| 0 <= i < self.entries@.len() && self.key_at(i) == a
    }

    /// The index of the entry binding `a`, where one exists.
    spec fn index_of(&self, a: u64) -> int {
        choose|i: int| 0 <= i < self.entries@.len() && self.key_at(i) == a
    }

    /// No two entries bind the same action.
    #[verifier::type_invariant]
    spec fn wf(&self) -> bool {
        forall|i: int, j: int|
            0 <= i < j < self.entries@.len() ==> self.key_at(i) != self.key_at(j)
    }

    /// An empty catalog.
    pub fn new() -> (r: AnimationMap)
        ensures
            r@ == Map::<u64, SetView>::empty(),
    {
        let r = AnimationMap { entries: Vec::new() };
        proof {
            assert(r@ =~= Map::<u64, SetView>::empty());
        }
        r
    }

    /// The position of the entry binding `action`, if one does.
    fn find_index(&self, action: u64) -> (r: Option<usize>)
        requires
            self.wf(),
        ensures
            match r {
                Some(i) => i < self.entries@.len() && self.key_at(i as int) == action,
                None => !self.has_key(action),
            },
    {
        let n = self.entries.len();
        let mut i: usize = 0;
        while i < n
            invariant
                i <= n,
                n == self.entries@.len(),
                forall|j: int| 0 <= j < i ==> self.key_at(j) != action,
            decreases n - i,
        {
            if self.entries[i].0 == action {
                return Some(i);
            }
            i += 1;
        }
        None
    }

    /// Bind `action` to `set`, replacing any earlier binding.
    pub fn insert(&mut self, action: u64, set: AnimationSet)
        ensures
            final(self)@ == old(self)@.insert(action, set@),
    {
        proof {
            use_type_invariant(&*self);
        }
        let ghost pre = *self;
        let found = self.find_index(action);
        let mut v: Vec<(u64, AnimationSet)> = Vec::new();
        core::mem::swap(&mut self.entries, &mut v);
        match found {
            Some(i) => {
                let ghost sv = set@;
                v[i] = (action, set);
                proof {
                    let post = AnimationMap { entries: v };
                    lemma_catalog_view_after_update(pre, post, i as int, sv);
                }
                self.entries = v;
            }
            None => {
                let ghost sv = set@;
                v.push((action, set));
                proof {
                    let post = AnimationMap { entries: v };
                    lemma_catalog_view_after_push(pre, post, sv);
                }
                self.entries = v;
            }
        }
    }

    /// Look the action up; `None` exactly when it has no binding.
    pub fn get(&self, action: u64) -> (r: Option<&AnimationSet>)
        ensures
            match r {
                Some(s) => self@.contains_key(action) && s@ == self@[action],
                None => !self@.contains_key(action),
            },
    {
        proof {
            use_type_invariant(self);
        }
        match self.find_index(action) {
            Some(i) => {
                proof {
                    lemma_catalog_key_index_unique(*self, action, i as int);
                }
                Some(&self.entries[i].1)
            }
            None => None,
        }
    }
}

impl View for AnimationMap {
    type V = Map<u64, SetView>;

    closed spec fn view(&self) -> Map<u64, SetView> {
        Map::new(
            |a: u64| self.has_key(a),
            |a: u64| self.entries@[self.index_of(a)].1@,
        )
    }
}

/// In a well-formed catalog the entry binding a given action is unique,
/// so `index_of` returns the index of any entry known to bind it.
proof fn lemma_catalog_key_index_unique(m: AnimationMap, a: u64, i: int)
    requires
        m.wf(),
        0 <= i < m.entries@.len(),
        m.key_at(i) == a,
    ensures
        m.has_key(a),
        m.index_of(a) == i,
        m@.contains_key(a),
        m@[a] == m.entries@[i].1@,
{
    assert(m.has_key(a));
    let w = m.index_of(a);
    assert(0 <= w < m.entries@.len() && m.key_at(w) == a);
    if w < i {
        assert(m.key_at(w) != m.key_at(i));
    } else if i < w {
        assert(m.key_at(i) != m.key_at(w));
    }
}

/// Replacing the set of the entry binding an action updates the map view
/// at that action and nowhere else; `sv` is the image of the new set.
proof fn lemma_catalog_view_after_update(pre: AnimationMap, post: AnimationMap, i: int, sv: SetView)
    requires
        pre.wf(),
        0 <= i < pre.entries@.len(),
        post.entries@.len() == pre.entries@.len(),
        forall|j: int| #![auto]
            0 <= j < pre.entries@.len() && j != i ==> post.entries@[j] == pre.entries@[j],
        post.key_at(i) == pre.key_at(i),
        post.entries@[i].1@ == sv,
    ensures
        post.wf(),
        post@ == pre@.insert(pre.key_at(i), sv),
{
    let key = pre.key_at(i);
    assert forall|p: int, q: int|
        0 <= p < q < post.entries@.len() implies post.key_at(p) != post.key_at(q) by {
        assert(post.key_at(p) == pre.key_at(p));
        assert(post.key_at(q) == pre.key_at(q));
    }
    assert forall|a: u64| pre.has_key(a) implies post.has_key(a) by {
        let j = choose|j: int| 0 <= j < pre.entries@.len() && pre.key_at(j) == a;
        assert(post.key_at(j) == a);
    }
    assert forall|a: u64| post.has_key(a) implies pre.has_key(a) by {
        let j = choose|j: int| 0 <= j < post.entries@.len() && post.key_at(j) == a;
        assert(pre.key_at(j) == a);
    }
    lemma_catalog_key_index_unique(pre, key, i);
    lemma_catalog_key_index_unique(post, key, i);
    assert forall|a: u64| #[trigger] pre.has_key(a) && a != key implies post@[a] == pre@[a] by {
        let j = pre.index_of(a);
        assert(0 <= j < pre.entries@.len() && pre.key_at(j) == a);
        assert(j != i);
        lemma_catalog_key_index_unique(pre, a, j);
        lemma_catalog_key_index_unique(post, a, j);
    }
    assert(post@ =~= pre@.insert(key, sv));
}

/// Appending an entry binding a fresh action adds exactly that binding
/// to the map view; `sv` is the image of the appended set.
proof fn lemma_catalog_view_after_push(pre: AnimationMap, post: AnimationMap, sv: SetView)
    requires
        pre.wf(),
        post.entries@.len() == pre.entries@.len() + 1,
        forall|j: int| #![auto]
            0 <= j < pre.entries@.len() ==> post.entries@[j] == pre.entries@[j],
        !pre.has_key(post.key_at(pre.entries@.len() as int)),
        post.entries@[pre.entries@.len() as int].1@ == sv,
    ensures
        post.wf(),
        post@ == pre@.insert(post.key_at(pre.entries@.len() as int), sv),
{
    let n = pre.entries@.len() as int;
    let key = post.key_at(n);
    assert forall|p: int, q: int|
        0 <= p < q < post.entries@.len() implies post.key_at(p) != post.key_at(q) by {
        if q < n {
            assert(pre.key_at(p) != pre.key_at(q));
        } else {
            assert(post.key_at(p) == pre.key_at(p));
            if post.key_at(p) == key {
                assert(pre.has_key(key));
            }
        }
    }
    assert forall|a: u64| pre.has_key(a) implies post.has_key(a) by {
        let j = choose|j: int| 0 <= j < pre.entries@.len() && pre.key_at(j) == a;
        assert(post.key_at(j) == a);
    }
    assert(post.has_key(key));
    assert forall|a: u64| post.has_key(a) && a != key implies pre.has_key(a) by {
        let j = choose|j: int| 0 <= j < post.entries@.len() && post.key_at(j) == a;
        assert(j != n);
        assert(pre.key_at(j) == a);
    }
    lemma_catalog_key_index_unique(post, key, n);
    assert forall|a: u64| #[trigger] pre.has_key(a) implies post@[a] == pre@[a] by {
        let j = pre.index_of(a);
        assert(0 <= j < pre.entries@.len() && pre.key_at(j) == a);
        lemma_catalog_key_index_unique(pre, a, j);
        lemma_catalog_key_index_unique(post, a, j);
    }
    assert(post@ =~= pre@.insert(key, sv));
}

} // verus!
