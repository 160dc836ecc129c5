use vstd::prelude::*;

verus! {

/// The map that a frame's list of bindings stands for: a later binding of a
/// name replaces an earlier one.
pub open spec fn frame_map<V>(s: Seq<(String, V)>) -> Map<Seq<char>, V>
    decreases s.len(),
{
    if s.len() == 0 {
        Map::empty()
    } else {
        frame_map(s.drop_last()).insert(s.last().0@, s.last().1)
    }
}

/// The value bound to `k` in the innermost of `frames` that binds it.
pub open spec fn lookup<V>(frames: Seq<Map<Seq<char>, V>>, k: Seq<char>) -> Option<V>
    decreases frames.len(),
{
    if frames.len() == 0 {
        None
    } else if frames.last().contains_key(k) {
        Some(frames.last()[k])
    } else {
        lookup(frames.drop_last(), k)
    }
}

/// `n` frames that bind nothing.
pub open spec fn empty_frames<V>(n: nat) -> Seq<Map<Seq<char>, V>> {
    Seq::new(n, |i: int| Map::<Seq<char>, V>::empty())
}

/// The frames that a stack of stored frames stands for: each stored frame,
/// followed by as many empty frames as were pushed above it and never bound into.
pub open spec fn expand<V>(b: Seq<(Vec<(String, V)>, usize)>) -> Seq<Map<Seq<char>, V>>
    decreases b.len(),
{
    if b.len() == 0 {
        Seq::empty()
    } else {
        expand(b.drop_last()).push(frame_map(b.last().0@)) + empty_frames(b.last().1 as nat)
    }
}

/// Looking a name up in two stacks of frames, one above the other.
pub proof fn lemma_lookup_append<V>(a: Seq<Map<Seq<char>, V>>, b: Seq<Map<Seq<char>, V>>, k: Seq<char>)
    ensures
        lookup(a + b, k) == (match lookup(b, k) {
            Some(v) => Some(v),
            None => lookup(a, k),
        }),
    decreases b.len(),
{
    if b.len() == 0 {
        assert(a + b =~= a);
    } else {
        assert((a + b).drop_last() =~= a + b.drop_last());
        lemma_lookup_append(a, b.drop_last(), k);
    }
}

/// Empty frames bind nothing.
pub proof fn lemma_lookup_empty<V>(n: nat, k: Seq<char>)
    ensures
        lookup(empty_frames::<V>(n), k) is None,
    decreases n,
{
    if n > 0 {
        assert(empty_frames::<V>(n).drop_last() =~= empty_frames::<V>((n - 1) as nat));
        lemma_lookup_empty::<V>((n - 1) as nat, k);
    }
}

/// A binding made in a freshly pushed frame is visible until that frame is
/// popped, and popping it restores the scope exactly; pushing two frames and
/// popping two restores it too. `frames` is a scope's view, `pushed` the view
/// after `push`, `bound` after `add(k, v)`, and the last clauses give `pop`.
pub proof fn law_frame_balance<V>(frames: Seq<Map<Seq<char>, V>>, k: Seq<char>, v: V)
    requires
        frames.len() >= 1,
    ensures
        ({
            let pushed = frames.push(Map::empty());
            let bound = pushed.update(pushed.len() - 1, pushed.last().insert(k, v));
            &&& lookup(bound, k) == Some(v)
            &&& bound.len() > 1
            &&& bound.drop_last() == frames
        }),
        ({
            let twice = frames.push(Map::empty()).push(Map::empty());
            &&& twice.len() > 1
            &&& twice.drop_last().len() > 1
            &&& twice.drop_last().drop_last() == frames
        }),
{
    let pushed = frames.push(Map::empty());
    let bound = pushed.update(pushed.len() - 1, pushed.last().insert(k, v));
    assert(bound.drop_last() =~= frames);
    assert(frames.push(Map::empty()).push(Map::empty()).drop_last().drop_last() =~= frames);
}

/// A stack of binding frames. A name resolves to its binding in the innermost
/// frame that binds it. Pushing a frame costs no allocation until something is
/// bound in it: each stored frame counts the empty frames pushed above it.
pub struct Scope<V> {
    bindings: Vec<(Vec<(String, V)>, usize)>,
}

impl<V> View for Scope<V> {
    type V = Seq<Map<Seq<char>, V>>;

    /// The frames, innermost last, as if each push had made a frame of its own.
    closed spec fn view(&self) -> Seq<Map<Seq<char>, V>> {
        expand(self.bindings@)
    }
}

impl<V> Scope<V> {
    /// The base frame is always there.
    pub closed spec fn wf(&self) -> bool {
        self.bindings@.len() >= 1
    }

    /// A well-formed scope has at least one frame.
    pub proof fn lemma_wf_len(&self)
        requires
            self.wf(),
        ensures
            self@.len() >= 1,
    {
        self.lemma_view_len();
    }

    proof fn lemma_view_len(&self)
        requires
            self.wf(),
        ensures
            self@.len() >= 1,
    {
        let b = self.bindings@;
        assert(expand(b).len() == expand(b.drop_last()).len() + 1 + b.last().1);
    }

    /// A scope whose base frame holds the bindings of `base`; of two bindings of
    /// one name the later counts.
    pub fn new(base: Vec<(String, V)>) -> (r: Scope<V>)
        ensures
            r.wf(),
            r@ == seq![frame_map(base@)],
    {
        let ghost base0 = base;
        let mut bindings: Vec<(Vec<(String, V)>, usize)> = Vec::new();
        bindings.push((base, 0));
        let r = Scope { bindings };
        assert(r.bindings@.drop_last() =~= Seq::empty());
        assert(r.bindings@.last() == (base0, 0usize));
        assert(expand(r.bindings@.drop_last()) =~= Seq::empty());
        assert(empty_frames::<V>(0) =~= Seq::empty());
        assert(expand(r.bindings@) == Seq::<Map<Seq<char>, V>>::empty().push(frame_map(base@)) + empty_frames::<V>(0));
        assert(r@ =~= seq![frame_map(base@)]);
        r
    }

    /// The value bound to `id` in the innermost frame that binds it.
    pub fn get(&self, id: &str) -> (r: Option<&V>)
        requires
            self.wf(),
        ensures
            match r {
                Some(v) => lookup(self@, id@) == Some(*v),
                None => lookup(self@, id@) is None,
            },
    {
        let key = String::from_str(id);
        let mut f: usize = self.bindings.len();
        assert(self.bindings@.subrange(0, f as int) =~= self.bindings@);
        while f > 0
            invariant
                f <= self.bindings@.len(),
                key@ == id@,
                lookup(self@, id@) == lookup(expand(self.bindings@.subrange(0, f as int)), id@),
            decreases f,
        {
            let frame = &self.bindings[f - 1].0;
            let mut found: Option<usize> = None;
            let mut j: usize = 0;
            while j < frame.len()
                invariant
                    j <= frame@.len(),
                    key@ == id@,
                    match found {
                        Some(x) => x < j && frame_map(frame@.subrange(0, j as int)).contains_key(id@)
                            && frame_map(frame@.subrange(0, j as int))[id@] == frame@[x as int].1,
                        None => !frame_map(frame@.subrange(0, j as int)).contains_key(id@),
                    },
                decreases frame.len() - j,
            {
                assert(frame@.subrange(0, j as int + 1).drop_last() =~= frame@.subrange(0, j as int));
                if frame[j].0 == key {
                    found = Some(j);
                }
                j = j + 1;
            }
            assert(frame@.subrange(0, j as int) =~= frame@);
            let ghost pre = self.bindings@.subrange(0, f - 1);
            let ghost cur = self.bindings@.subrange(0, f as int);
            proof {
                assert(cur.drop_last() =~= pre);
                lemma_lookup_append(expand(pre).push(frame_map(frame@)), empty_frames::<V>(cur.last().1 as nat), id@);
                lemma_lookup_empty::<V>(cur.last().1 as nat, id@);
                assert(expand(pre).push(frame_map(frame@)).drop_last() =~= expand(pre));
            }
            match found {
                Some(x) => {
                    return Some(&self.bindings[f - 1].0[x].1);
                },
                None => {},
            }
            f = f - 1;
        }
        assert(self.bindings@.subrange(0, 0) =~= Seq::empty());
        None
    }

    /// Opens a new, empty innermost frame.
    pub fn push(&mut self)
        requires
            old(self).wf(),
        ensures
            final(self).wf(),
            final(self)@ == old(self)@.push(Map::empty()),
    {
        let (m, c) = self.bindings.pop().unwrap();
        if c == usize::MAX {
            self.bindings.push((m, c));
            self.bindings.push((Vec::new(), 0));
            proof {
                let b = old(self).bindings@;
                let b2 = self.bindings@;
                assert(b2.drop_last() =~= b);
                assert(frame_map(Seq::<(String, V)>::empty()) =~= Map::empty());
                assert(expand(b2) =~= expand(b).push(Map::empty()));
            }
            return;
        }
        self.bindings.push((m, c + 1));
        proof {
            let b = old(self).bindings@;
            let b2 = self.bindings@;
            assert(b2.drop_last() =~= b.drop_last());
            assert(empty_frames::<V>((c + 1) as nat) =~= empty_frames::<V>(c as nat).push(Map::empty()));
            assert(expand(b2) =~= expand(b).push(Map::empty()));
        }
    }


    /// Binds `key` to `val` in the innermost frame.
    pub fn add(&mut self, key: String, val: V)
        requires
            old(self).wf(),
        ensures
            final(self).wf(),
            final(self)@ == old(self)@.update(
                old(self)@.len() - 1,
                old(self)@.last().insert(key@, val),
            ),
    {
        let ghost k = key@;
        let (mut m, c) = self.bindings.pop().unwrap();
        let ghost m0 = m@;
        if c == 0 {
            m.push((key, val));
            self.bindings.push((m, 0));
            proof {
                let b = old(self).bindings@;
                let b2 = self.bindings@;
                assert(b2.drop_last() =~= b.drop_last());
                assert(m@.drop_last() =~= m0);
                assert(empty_frames::<V>(0) =~= Seq::empty());
                assert(expand(b2) =~= expand(b).update(expand(b).len() - 1, expand(b).last().insert(k, val)));
            }
        } else {
            self.bindings.push((m, c - 1));
            let mut fresh: Vec<(String, V)> = Vec::new();
            fresh.push((key, val));
            self.bindings.push((fresh, 0));
            proof {
                let b = old(self).bindings@;
                let b2 = self.bindings@;
                assert(b2.drop_last().drop_last() =~= b.drop_last());
                assert(fresh@.drop_last() =~= Seq::<(String, V)>::empty());
                assert(fresh@.last().0@ == k);
                assert(frame_map(fresh@.drop_last()) =~= Map::<Seq<char>, V>::empty());
                assert(frame_map(fresh@) =~= Map::<Seq<char>, V>::empty().insert(k, val));
                assert(empty_frames::<V>(0) =~= Seq::empty());
                assert(empty_frames::<V>(c as nat) =~= empty_frames::<V>((c - 1) as nat).push(Map::empty()));
                let e0 = expand(b.drop_last());
                let fm = frame_map(b.last().0@);
                assert(expand(b2.drop_last()) == e0.push(fm) + empty_frames::<V>((c - 1) as nat));
                assert(expand(b) == e0.push(fm) + empty_frames::<V>(c as nat));
                assert(expand(b2) == expand(b2.drop_last()).push(frame_map(fresh@)) + empty_frames::<V>(0));
                assert(expand(b2) =~= expand(b).update(expand(b).len() - 1, expand(b).last().insert(k, val)));
            }
        }
    }

    /// Closes the innermost frame, unless it is the base frame.
    pub fn pop(&mut self)
        requires
            old(self).wf(),
        ensures
            final(self).wf(),
            final(self)@ == if old(self)@.len() > 1 {
                old(self)@.drop_last()
            } else {
                old(self)@
            },
    {
        proof {
            self.lemma_view_len();
        }
        let (m, c) = self.bindings.pop().unwrap();
        if c > 0 {
            self.bindings.push((m, c - 1));
            proof {
                let b = old(self).bindings@;
                let b2 = self.bindings@;
                assert(b2.drop_last() =~= b.drop_last());
                assert(empty_frames::<V>(c as nat) =~= empty_frames::<V>((c - 1) as nat).push(Map::empty()));
                assert(expand(b2) =~= expand(b).drop_last());
            }
        } else if self.bindings.len() == 0 {
            self.bindings.push((m, c));
            proof {
                assert(self.bindings@ =~= old(self).bindings@);
                let b = old(self).bindings@;
                assert(b.drop_last() =~= Seq::empty());
                assert(empty_frames::<V>(0) =~= Seq::empty());
                assert(expand(b.drop_last()).len() == 0);
                assert(expand(b).len() == 1);
            }
        } else {
            proof {
                let b = old(self).bindings@;
                assert(self.bindings@ =~= b.drop_last());
                assert(empty_frames::<V>(0) =~= Seq::empty());
                assert(expand(b) =~= expand(b.drop_last()).push(frame_map(m@)));
                assert(expand(b).drop_last() =~= expand(b.drop_last()));
                assert(b.drop_last().len() >= 1);
                self.lemma_view_len();
            }
        }
    }
}

} // verus!
