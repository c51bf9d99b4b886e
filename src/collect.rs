use crate::heap::{object_wf, Heap, HeapObject, Value};
use vstd::prelude::*;
use vstd::set_lib::{lemma_int_range, lemma_len_subset, set_int_range};

verus! {

/// Values held by a heap object: an array's elements, a struct's fields.
pub open spec fn held_values(o: HeapObject) -> Seq<Value> {
    match o {
        HeapObject::Array { elems, .. } => elems@,
        HeapObject::Struct { fields, .. } => fields@,
    }
}

/// Positions set in a mark vector.
pub open spec fn marked_set(m: Seq<bool>) -> Set<int> {
    Set::new(|i: int| 0 <= i < m.len() && m[i])
}

impl Heap {
    /// The live object at `a` holds a reference to the live object at `b`.
    pub open spec fn refers_to(&self, a: int, b: int) -> bool {
        &&& self.live(a)
        &&& self.live(b)
        &&& exists|k: int|
            0 <= k < held_values(self.object(a)).len() && #[trigger] held_values(self.object(a))[k]
                == Value::Ref(b as usize)
    }

    /// `b` is a live object that `roots` name.
    pub open spec fn is_root(&self, roots: Seq<Option<usize>>, b: int) -> bool {
        &&& self.live(b)
        &&& exists|r: int| 0 <= r < roots.len() && #[trigger] roots[r] == Some(b as usize)
    }

    /// `b` is reached from `roots` by following at most `n` references.
    pub open spec fn reachable_within(&self, roots: Seq<Option<usize>>, b: int, n: nat) -> bool
        decreases n,
    {
        if n == 0 {
            self.is_root(roots, b)
        } else {
            self.reachable_within(roots, b, (n - 1) as nat) || exists|a: int|
                self.reachable_within(roots, a, (n - 1) as nat) && #[trigger] self.refers_to(a, b)
        }
    }

    /// `b` is reached from `roots` by following references.
    pub open spec fn reachable(&self, roots: Seq<Option<usize>>, b: int) -> bool {
        exists|n: nat| #[trigger] self.reachable_within(roots, b, n)
    }

    /// A set of marks that holds every root and is closed under references holds
    /// everything reachable.
    proof fn lemma_closed_marks_hold_reachable(
        &self,
        roots: Seq<Option<usize>>,
        m: Seq<bool>,
        b: int,
        n: nat,
    )
        requires
            m.len() == self.slots@.len(),
            forall|x: int| #[trigger] self.is_root(roots, x) ==> m[x],
            forall|x: int, y: int| 0 <= x < m.len() && m[x] && #[trigger] self.refers_to(x, y) ==> m[y],
            self.reachable_within(roots, b, n),
        ensures
            m[b],
        decreases n,
    {
        if n > 0 {
            if self.reachable_within(roots, b, (n - 1) as nat) {
                self.lemma_closed_marks_hold_reachable(roots, m, b, (n - 1) as nat);
            } else {
                let a = choose|a: int|
                    self.reachable_within(roots, a, (n - 1) as nat) && #[trigger] self.refers_to(a, b);
                self.lemma_closed_marks_hold_reachable(roots, m, a, (n - 1) as nat);
            }
        }
    }

    proof fn lemma_mark_grows(m: Seq<bool>, b: int)
        requires
            0 <= b < m.len(),
            !m[b],
        ensures
            marked_set(m.update(b, true)) == marked_set(m).insert(b),
            marked_set(m).finite(),
            marked_set(m).len() < m.len(),
            marked_set(m.update(b, true)).len() == marked_set(m).len() + 1,
    {
        assert(marked_set(m.update(b, true)) =~= marked_set(m).insert(b));
        lemma_int_range(0, m.len() as int);
        lemma_len_subset(marked_set(m), set_int_range(0, m.len() as int));
        lemma_len_subset(marked_set(m.update(b, true)), set_int_range(0, m.len() as int));
    }

    proof fn lemma_marks_bounded(m: Seq<bool>)
        ensures
            marked_set(m).finite(),
            marked_set(m).len() <= m.len(),
    {
        lemma_int_range(0, m.len() as int);
        lemma_len_subset(marked_set(m), set_int_range(0, m.len() as int));
    }

    proof fn lemma_push_keeps(w: Seq<usize>, a: usize)
        ensures
            forall|x: usize| w.contains(x) ==> #[trigger] w.push(a).contains(x),
            w.push(a).contains(a),
    {
        assert forall|x: usize| w.contains(x) implies #[trigger] w.push(a).contains(x) by {
            let i = choose|i: int| 0 <= i < w.len() && w[i] == x;
            assert(w.push(a)[i] == x);
        }
        assert(w.push(a)[w.len() as int] == a);
    }

    proof fn lemma_pop_keeps(w: Seq<usize>)
        requires
            w.len() > 0,
        ensures
            forall|z: usize| #[trigger] w.contains(z) ==> w.drop_last().contains(z) || z == w.last(),
    {
        assert forall|z: usize| #[trigger] w.contains(z) implies w.drop_last().contains(z) || z == w.last() by {
            let i = choose|i: int| 0 <= i < w.len() && w[i] == z;
            if i < w.len() - 1 {
                assert(w.drop_last()[i] == z);
            }
        }
    }

    fn held_len(&self, x: usize) -> (r: usize)
        requires
            self.live(x as int),
        ensures
            r == held_values(self.object(x as int)).len(),
    {
        match &self.slots[x] {
            Some(HeapObject::Array { elems, .. }) => elems.len(),
            Some(HeapObject::Struct { fields, .. }) => fields.len(),
            None => 0,
        }
    }

    fn held_at(&self, x: usize, k: usize) -> (r: Value)
        requires
            self.live(x as int),
            k < held_values(self.object(x as int)).len(),
        ensures
            r == held_values(self.object(x as int))[k as int],
    {
        match &self.slots[x] {
            Some(HeapObject::Array { elems, .. }) => elems[k],
            Some(HeapObject::Struct { fields, .. }) => fields[k],
            None => Value::Bool(false),
        }
    }

    /// Marks the objects that `roots` reach, following every reference that an
    /// object holds.
    fn mark(&self, roots: &Vec<Option<usize>>) -> (m: Vec<bool>)
        requires
            self.wf(),
        ensures
            m@.len() == self.slots@.len(),
            forall|b: int| 0 <= b < m@.len() ==> (m@[b] <==> self.reachable(roots@, b)),
    {
        let n = self.slots.len();
        let mut m: Vec<bool> = Vec::new();
        while m.len() < n
            invariant
                n == self.slots@.len(),
                m@.len() <= n,
                forall|i: int| 0 <= i < m@.len() ==> !m@[i],
            decreases n - m@.len(),
        {
            m.push(false);
        }
        let mut work: Vec<usize> = Vec::new();
        let mut r: usize = 0;
        while r < roots.len()
            invariant
                n == self.slots@.len(),
                m@.len() == n,
                r <= roots@.len(),
                forall|x: int| 0 <= x < n && #[trigger] m@[x] ==> self.live(x) && self.reachable(roots@, x),
                forall|x: int| 0 <= x < n && m@[x] ==> work@.contains(x as usize),
                forall|i: int| 0 <= i < work@.len() ==> (#[trigger] work@[i]) < n && m@[work@[i] as int],
                forall|x: int|
                    #[trigger] self.is_root(roots@, x) && (exists|q: int|
                        0 <= q < r && roots@[q] == Some(x as usize)) ==> m@[x],
            decreases roots@.len() - r,
        {
            if let Some(a) = roots[r] {
                if a < n && self.slots[a].is_some() && !m[a] {
                    proof {
                        assert(roots@[r as int] == Some(a));
                        assert(self.is_root(roots@, a as int));
                        assert(self.reachable_within(roots@, a as int, 0));
                        assert(self.reachable(roots@, a as int));
                        Heap::lemma_push_keeps(work@, a);
                    }
                    let ghost m_old = m@;
                    m.set(a, true);
                    work.push(a);
                    assert forall|x: int| 0 <= x < n && m@[x] implies self.live(x) && self.reachable(roots@, x) by {
                        if x != a {
                            assert(m_old[x]);
                        }
                    }
                }
            }
            r = r + 1;
        }
        while work.len() > 0
            invariant
                self.wf(),
                n == self.slots@.len(),
                m@.len() == n,
                forall|x: int| 0 <= x < n && #[trigger] m@[x] ==> self.live(x) && self.reachable(roots@, x),
                forall|i: int| 0 <= i < work@.len() ==> (#[trigger] work@[i]) < n && m@[work@[i] as int],
                forall|x: int| #[trigger] self.is_root(roots@, x) ==> m@[x],
                forall|x: int, y: int|
                    0 <= x < n && m@[x] && !work@.contains(x as usize) && #[trigger] self.refers_to(x, y)
                        ==> m@[y],
            decreases n - marked_set(m@).len(), work@.len(),
        {
            let ghost old_work = work@;
            let x = match work.pop() {
                Some(x) => x,
                None => 0,
            };
            let ghost m0 = m@;
            let ghost w0 = work@.len();
            proof {
                Heap::lemma_marks_bounded(m@);
                Heap::lemma_pop_keeps(old_work);
            }
            let len = self.held_len(x);
            let mut k: usize = 0;
            while k < len
                invariant
                    self.wf(),
                    n == self.slots@.len(),
                    m@.len() == n,
                    x < n,
                    m@[x as int],
                    self.live(x as int),
                    len == held_values(self.object(x as int)).len(),
                    k <= len,
                    forall|z: int| 0 <= z < n && #[trigger] m@[z] ==> self.live(z) && self.reachable(roots@, z),
                    forall|i: int| 0 <= i < work@.len() ==> (#[trigger] work@[i]) < n && m@[work@[i] as int],
                    forall|z: int| #[trigger] self.is_root(roots@, z) ==> m@[z],
                    forall|z: int, y: int|
                        0 <= z < n && z != x && m@[z] && !work@.contains(z as usize)
                            && #[trigger] self.refers_to(z, y) ==> m@[y],
                    forall|i: int|
                        0 <= i < k && (#[trigger] held_values(self.object(x as int))[i]) is Ref
                            && self.live(held_values(self.object(x as int))[i]->Ref_0 as int) ==> m@[held_values(
                            self.object(x as int),
                        )[i]->Ref_0 as int],
                    marked_set(m0).finite(),
                    marked_set(m@).finite(),
                    work@.len() >= w0,
                    marked_set(m@).len() == marked_set(m0).len() + (work@.len() - w0),
                    marked_set(m@).len() <= n,
                decreases len - k,
            {
                let v = self.held_at(x, k);
                if let Value::Ref(b) = v {
                    if b < n && self.slots[b].is_some() && !m[b] {
                        proof {
                            Heap::lemma_mark_grows(m@, b as int);
                            let nx = choose|nx: nat| #[trigger] self.reachable_within(roots@, x as int, nx);
                            assert(self.refers_to(x as int, b as int));
                            assert(self.reachable_within(roots@, b as int, nx + 1));
                            assert(self.reachable(roots@, b as int));
                            Heap::lemma_push_keeps(work@, b);
                        }
                        m.set(b, true);
                        work.push(b);
                        proof {
                            Heap::lemma_marks_bounded(m@);
                        }
                    }
                }
                k = k + 1;
            }
            proof {
                assert forall|z: int, y: int|
                    0 <= z < n && m@[z] && !work@.contains(z as usize) && #[trigger] self.refers_to(z, y)
                        implies m@[y] by {
                    if z == x {
                        let i = choose|i: int|
                            0 <= i < held_values(self.object(x as int)).len()
                                && #[trigger] held_values(self.object(x as int))[i] == Value::Ref(y as usize);
                        assert(self.live(y));
                    }
                }
            }
        }
        proof {
            assert forall|x: int, y: int| 0 <= x < m@.len() && m@[x] && #[trigger] self.refers_to(x, y) implies m@[y] by {
                assert(!work@.contains(x as usize));
            }
            assert forall|b: int| 0 <= b < m@.len() implies (m@[b] <==> self.reachable(roots@, b)) by {
                if self.reachable(roots@, b) {
                    let nb = choose|nb: nat| #[trigger] self.reachable_within(roots@, b, nb);
                    self.lemma_closed_marks_hold_reachable(roots@, m@, b, nb);
                }
            }
        }
        m
    }

    /// The slots once every object that `roots` do not reach is freed.
    pub open spec fn swept(&self, roots: Seq<Option<usize>>) -> Seq<Option<HeapObject>> {
        Seq::new(
            self.slots@.len(),
            |b: int|
                if self.reachable(roots, b) {
                    self.slots@[b]
                } else {
                    None
                },
        )
    }

    /// Frees every object that `roots` do not reach, directly or through the
    /// references that reachable objects hold; the others stay as they were.
    pub fn collect(&mut self, roots: &Vec<Option<usize>>)
        requires
            old(self).wf(),
        ensures
            final(self).wf(),
            final(self).limit == old(self).limit,
            final(self).slots@ == old(self).swept(roots@),
    {
        let m = self.mark(roots);
        let n = self.slots.len();
        let mut i: usize = 0;
        while i < n
            invariant
                n == old(self).slots@.len(),
                self.slots@.len() == n,
                self.limit == old(self).limit,
                m@.len() == n,
                i <= n,
                forall|b: int| 0 <= b < n ==> (m@[b] <==> old(self).reachable(roots@, b)),
                forall|j: int| 0 <= j < i ==> #[trigger] self.slots@[j] == old(self).swept(roots@)[j],
                forall|j: int| i <= j < n ==> #[trigger] self.slots@[j] == old(self).slots@[j],
            decreases n - i,
        {
            if !m[i] {
                self.slots.set(i, None);
            }
            i = i + 1;
        }
        assert(self.slots@ =~= old(self).swept(roots@));
        assert forall|a: int|
            0 <= a < self.slots@.len() && (#[trigger] self.slots@[a]) is Some implies object_wf(
                self.slots@[a]->Some_0,
            ) by {
            assert(self.slots@[a] == old(self).slots@[a]);
        }
    }
}

} // verus!
