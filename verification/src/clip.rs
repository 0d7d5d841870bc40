use vstd::prelude::*;

verus! {

/// A contiguous range of sprite-sheet frame indices: `Clip(first, last)`.
///
/// The playback direction is implicit: the frame index increments while
/// `first <= last` and decrements otherwise.
#[derive(Clone, Copy, Debug, PartialEq, Eq, Structural)]
pub struct Clip(pub usize, pub usize);

/// Whether `index` lies inside the frame range of `clip`, whichever way
/// the range runs.
pub open spec fn frame_in_range(index: usize, clip: Clip) -> bool {
    if clip.0 <= clip.1 {
        clip.0 <= index <= clip.1
    } else {
        clip.1 <= index <= clip.0
    }
}

impl Clip {
    /// Whether `index` lies inside this clip's frame range.
    pub fn admits_frame(&self, index: usize) -> (r: bool)
        ensures
            r == frame_in_range(index, *self),
    {
        if self.0 <= self.1 {
            self.0 <= index && index <= self.1
        } else {
            self.1 <= index && index <= self.0
        }
    }
}

/// A lookup table from clip identifiers to their frame ranges, seen in
/// specifications as a [`Map`] from the identifier's character sequence
/// to its [`Clip`].
pub struct ClipMap {
    entries: Vec<(String, Clip)>,
}

impl ClipMap {
    /// The identifier stored at entry `i`, as a character sequence.
    spec fn key_at(&self, i: int) -> Seq<char> {
        self.entries@[i].0@
    }

    /// Whether some entry carries the identifier `k`.
    spec fn has_key(&self, k: Seq<char>) -> bool {
        exists|i: int| 0 <= i < self.entries@.len() && self.key_at(i) == k
    }

    /// The index of the entry carrying `k`, where one exists.
    spec fn index_of(&self, k: Seq<char>) -> int {
        choose|i: int| 0 <= i < self.entries@.len() && self.key_at(i) == k
    }

    /// No two entries carry the same identifier.
    #[verifier::type_invariant]
    spec fn wf(&self) -> bool {
        forall|i: int, j: int|
            0 <= i < j < self.entries@.len() ==> self.key_at(i) != self.key_at(j)
    }

    /// An empty table.
    pub fn new() -> (r: ClipMap)
        ensures
            r@ == Map::<Seq<char>, Clip>::empty(),
    {
        let r = ClipMap { entries: Vec::new() };
        proof {
            assert(r@ =~= Map::<Seq<char>, Clip>::empty());
        }
        r
    }

    /// The position of the entry carrying `id`, if one does.
    fn find_index(&self, id: &String) -> (r: Option<usize>)
        requires
            self.wf(),
        ensures
            match r {
                Some(i) => i < self.entries@.len() && self.key_at(i as int) == id@,
                None => !self.has_key(id@),
            },
    {
        let n = self.entries.len();
        let mut i: usize = 0;
        while i < n
            invariant
                i <= n,
                n == self.entries@.len(),
                forall|j: int| 0 <= j < i ==> self.key_at(j) != id@,
            decreases n - i,
        {
            let e = &self.entries[i];
            if e.0 == *id {
                return Some(i);
            }
            i += 1;
        }
        None
    }

    /// Bind `id` to `clip`, replacing any earlier binding of the same
    /// identifier.
    pub fn insert(&mut self, id: String, clip: Clip)
        ensures
            final(self)@ == old(self)@.insert(id@, clip),
    {
        proof {
            use_type_invariant(&*self);
        }
        let ghost pre = *self;
        let found = self.find_index(&id);
        let mut v: Vec<(String, Clip)> = Vec::new();
        core::mem::swap(&mut self.entries, &mut v);
        match found {
            Some(i) => {
                v[i] = (id, clip);
                proof {
                    let post = ClipMap { entries: v };
                    lemma_view_after_update(pre, post, i as int, clip);
                }
                self.entries = v;
            }
            None => {
                v.push((id, clip));
                proof {
                    let post = ClipMap { entries: v };
                    lemma_view_after_push(pre, post, clip);
                }
                self.entries = v;
            }
        }
    }

    /// Look the identifier up; `None` exactly when it is not bound.
    pub fn get(&self, id: &String) -> (r: Option<Clip>)
        ensures
            match r {
                Some(c) => self@.contains_key(id@) && self@[id@] == c,
                None => !self@.contains_key(id@),
            },
    {
        proof {
            use_type_invariant(self);
        }
        match self.find_index(id) {
            Some(i) => {
                proof {
                    lemma_key_index_unique(*self, id@, i as int);
                }
                Some(self.entries[i].1)
            }
            None => None,
        }
    }
}

impl View for ClipMap {
    type V = Map<Seq<char>, Clip>;

    closed spec fn view(&self) -> Map<Seq<char>, Clip> {
        Map::new(
            |k: Seq<char>| self.has_key(k),
            |k: Seq<char>| self.entries@[self.index_of(k)].1,
        )
    }
}

impl Clone for ClipMap {
    /// A copy with the same bindings.
    fn clone(&self) -> (r: Self)
        ensures
            r@ == self@,
    {
        proof {
            use_type_invariant(self);
        }
        let n = self.entries.len();
        let mut entries: Vec<(String, Clip)> = Vec::new();
        let mut i: usize = 0;
        while i < n
            invariant
                i <= n,
                self.wf(),
                n == self.entries@.len(),
                entries@.len() == i,
                forall|j: int| #![auto]
                    0 <= j < i ==> entries@[j].0@ == self.entries@[j].0@
                        && entries@[j].1 == self.entries@[j].1,
            decreases n - i,
        {
            let e = &self.entries[i];
            entries.push((e.0.clone(), e.1));
            i += 1;
        }
        proof {
            let c = ClipMap { entries };
            lemma_same_keys_same_view(*self, c);
        }
        ClipMap { entries }
    }
}

/// In a well-formed table the entry carrying a given identifier is unique,
/// so `index_of` returns the index of any entry known to carry it.
proof fn lemma_key_index_unique(a: ClipMap, k: Seq<char>, i: int)
    requires
        a.wf(),
        0 <= i < a.entries@.len(),
        a.key_at(i) == k,
    ensures
        a.has_key(k),
        a.index_of(k) == i,
        a@.contains_key(k),
        a@[k] == a.entries@[i].1,
{
    assert(a.has_key(k));
    let w = a.index_of(k);
    assert(0 <= w < a.entries@.len() && a.key_at(w) == k);
    if w < i {
        assert(a.key_at(w) != a.key_at(i));
    } else if i < w {
        assert(a.key_at(i) != a.key_at(w));
    }
}

/// Two tables whose entries agree in identifier and clip, slot for slot,
/// have the same map view.
proof fn lemma_same_keys_same_view(a: ClipMap, b: ClipMap)
    requires
        a.wf(),
        b.entries@.len() == a.entries@.len(),
        forall|j: int| #![auto]
            0 <= j < a.entries@.len() ==> b.key_at(j) == a.key_at(j)
                && b.entries@[j].1 == a.entries@[j].1,
    ensures
        b.wf(),
        b@ == a@,
{
    assert(b.wf());
    assert forall|k: Seq<char>| a.has_key(k) implies b.has_key(k) by {
        let i = choose|i: int| 0 <= i < a.entries@.len() && a.key_at(i) == k;
        assert(b.key_at(i) == k);
    }
    assert forall|k: Seq<char>| b.has_key(k) implies a.has_key(k) by {
        let i = choose|i: int| 0 <= i < b.entries@.len() && b.key_at(i) == k;
        assert(a.key_at(i) == k);
    }
    assert forall|k: Seq<char>| #[trigger] a@.contains_key(k) implies a@[k] == b@[k] by {
        let i = a.index_of(k);
        assert(0 <= i < a.entries@.len() && a.key_at(i) == k);
        lemma_key_index_unique(b, k, i);
        lemma_key_index_unique(a, k, i);
    }
    assert(b@ =~= a@);
}

/// Replacing the clip of the entry carrying an identifier updates the map
/// view at that identifier and nowhere else.
proof fn lemma_view_after_update(pre: ClipMap, post: ClipMap, i: int, clip: Clip)
    requires
        pre.wf(),
        0 <= i < pre.entries@.len(),
        post.entries@.len() == pre.entries@.len(),
        forall|j: int| #![auto]
            0 <= j < pre.entries@.len() && j != i ==> post.entries@[j] == pre.entries@[j],
        post.key_at(i) == pre.key_at(i),
        post.entries@[i].1 == clip,
    ensures
        post.wf(),
        post@ == pre@.insert(pre.key_at(i), clip),
{
    let key = pre.key_at(i);
    assert forall|p: int, q: int|
        0 <= p < q < post.entries@.len() implies post.key_at(p) != post.key_at(q) by {
        assert(post.key_at(p) == pre.key_at(p));
        assert(post.key_at(q) == pre.key_at(q));
    }
    assert forall|k: Seq<char>| pre.has_key(k) implies post.has_key(k) by {
        let j = choose|j: int| 0 <= j < pre.entries@.len() && pre.key_at(j) == k;
        assert(post.key_at(j) == k);
    }
    assert forall|k: Seq<char>| post.has_key(k) implies pre.has_key(k) by {
        let j = choose|j: int| 0 <= j < post.entries@.len() && post.key_at(j) == k;
        assert(pre.key_at(j) == k);
    }
    lemma_key_index_unique(pre, key, i);
    lemma_key_index_unique(post, key, i);
    assert forall|k: Seq<char>| #[trigger] pre.has_key(k) && k != key implies
        post@[k] == pre@[k] by {
        let j = pre.index_of(k);
        assert(0 <= j < pre.entries@.len() && pre.key_at(j) == k);
        assert(j != i);
        lemma_key_index_unique(pre, k, j);
        lemma_key_index_unique(post, k, j);
    }
    assert(post@ =~= pre@.insert(key, clip));
}

/// Appending an entry with a fresh identifier adds exactly that binding
/// to the map view.
proof fn lemma_view_after_push(pre: ClipMap, post: ClipMap, clip: Clip)
    requires
        pre.wf(),
        post.entries@.len() == pre.entries@.len() + 1,
        forall|j: int| #![auto]
            0 <= j < pre.entries@.len() ==> post.entries@[j] == pre.entries@[j],
        !pre.has_key(post.key_at(pre.entries@.len() as int)),
        post.entries@[pre.entries@.len() as int].1 == clip,
    ensures
        post.wf(),
        post@ == pre@.insert(post.key_at(pre.entries@.len() as int), clip),
{
    let n = pre.entries@.len() as int;
    let key = post.key_at(n);
    assert forall|p: int, q: int|
        0 <= p < q < post.entries@.len() implies post.key_at(p) != post.key_at(q) by {
        if q < n {
            assert(pre.key_at(p) != pre.key_at(q));
        } else {
            assert(post.key_at(p) == pre.key_at(p));
            if post.key_at(p) == key {
                assert(pre.has_key(key));
            }
        }
    }
    assert forall|k: Seq<char>| pre.has_key(k) implies post.has_key(k) by {
        let j = choose|j: int| 0 <= j < pre.entries@.len() && pre.key_at(j) == k;
        assert(post.key_at(j) == k);
    }
    assert(post.has_key(key));
    assert forall|k: Seq<char>| post.has_key(k) && k != key implies pre.has_key(k) by {
        let j = choose|j: int| 0 <= j < post.entries@.len() && post.key_at(j) == k;
        assert(j != n);
        assert(pre.key_at(j) == k);
    }
    lemma_key_index_unique(post, key, n);
    assert forall|k: Seq<char>| #[trigger] pre.has_key(k) implies post@[k] == pre@[k] by {
        let j = pre.index_of(k);
        assert(0 <= j < pre.entries@.len() && pre.key_at(j) == k);
        lemma_key_index_unique(pre, k, j);
        lemma_key_index_unique(post, k, j);
    }
    assert(post@ =~= pre@.insert(key, clip));
}

} // verus!
