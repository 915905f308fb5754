//! Facts about paths and marks, on which the allocator and the laws of the
//! cycle rest.

use super::handle::Traceable;
use super::heap::Heap;
use vstd::prelude::*;

verus! {

/// Filtering a sequence with one more element at its end.
pub proof fn lemma_filter_push<A>(s: Seq<A>, x: A, pred: spec_fn(A) -> bool)
    ensures
        s.push(x).filter(pred) == if pred(x) {
            s.filter(pred).push(x)
        } else {
            s.filter(pred)
        },
{
    reveal(Seq::filter);
    assert(s.push(x).drop_last() =~= s);
}

/// Filtering by two predicates that agree on every element gives the same.
pub proof fn lemma_filter_agree<A>(s: Seq<A>, p: spec_fn(A) -> bool, q: spec_fn(A) -> bool)
    requires
        forall|k: int| 0 <= k < s.len() ==> p(#[trigger] s[k]) == q(s[k]),
    ensures
        s.filter(p) == s.filter(q),
    decreases s.len(),
{
    reveal(Seq::filter);
    if s.len() > 0 {
        let front = s.drop_last();
        assert forall|k: int| 0 <= k < front.len() implies p(#[trigger] front[k]) == q(
            front[k],
        ) by {
            assert(front[k] == s[k]);
        }
        lemma_filter_agree(front, p, q);
        assert(p(s[s.len() - 1]) == q(s[s.len() - 1]));
    }
}

/// Filtering an increasing sequence keeps exactly its elements that meet
/// the predicate, and keeps them increasing.
pub proof fn lemma_filter_increasing(s: Seq<int>, pred: spec_fn(int) -> bool)
    requires
        forall|j: int, k: int| 0 <= j < k < s.len() ==> s[j] < s[k],
    ensures
        forall|j: int, k: int|
            0 <= j < k < s.filter(pred).len() ==> s.filter(pred)[j] < s.filter(pred)[k],
        forall|k: int|
            0 <= k < s.filter(pred).len() ==> pred(#[trigger] s.filter(pred)[k]) && s.contains(
                s.filter(pred)[k],
            ),
        forall|k: int| 0 <= k < s.len() && pred(#[trigger] s[k]) ==> s.filter(pred).contains(s[k]),
    decreases s.len(),
{
    reveal(Seq::filter);
    if s.len() > 0 {
        let front = s.drop_last();
        let last = s.last();
        let kept = front.filter(pred);
        assert forall|j: int, k: int| 0 <= j < k < front.len() implies front[j] < front[k] by {
            assert(front[j] == s[j] && front[k] == s[k]);
        }
        lemma_filter_increasing(front, pred);
        let out = s.filter(pred);
        assert forall|k: int| 0 <= k < kept.len() implies #[trigger] kept[k] < last && s.contains(
            kept[k],
        ) by {
            assert(front.contains(kept[k]));
            let m = choose|m: int| 0 <= m < front.len() && front[m] == kept[k];
            assert(s[m] == kept[k]);
        }
        assert forall|k: int| 0 <= k < out.len() implies pred(#[trigger] out[k]) && s.contains(
            out[k],
        ) by {
            if k < kept.len() {
                assert(out[k] == kept[k]);
            } else {
                assert(out[k] == s[s.len() - 1]);
            }
        }
        assert forall|j: int, k: int| 0 <= j < k < out.len() implies out[j] < out[k] by {
            assert(out[j] == kept[j]);
            if k < kept.len() {
                assert(out[k] == kept[k]);
            }
        }
        assert forall|k: int| 0 <= k < s.len() && pred(#[trigger] s[k]) implies out.contains(
            s[k],
        ) by {
            if k < front.len() {
                assert(front[k] == s[k]);
                assert(kept.contains(front[k]));
                let m = choose|m: int| 0 <= m < kept.len() && kept[m] == front[k];
                assert(out[m] == s[k]);
            } else {
                assert(out[out.len() - 1] == s[k]);
            }
        }
    }
}

impl<T: Traceable> Heap<T> {
    /// While a slot's payload is traced. `self` is the heap before `root`
    /// was marked, `now` the heap so far, and the first `done` children of
    /// `root` have been gone through:
    /// - only marks have been added, and `root` has one;
    /// - each new mark is on a slot that an unmarked path from `root` led to;
    /// - each newly marked slot other than `root` has all its children marked;
    /// - so have the children of `root` that are done.
    pub open spec fn tracing(self, now: Heap<T>, root: int, done: int) -> bool {
        &&& self.unmarked(root)
        &&& self.same_payloads(now)
        &&& self.marks_within(now)
        &&& now.marked(root)
        &&& forall|i: int| #[trigger]
            now.marked(i) && !self.marked(i) ==> self.reaches_unmarked(root, i)
        &&& forall|i: int, c: int|
            #![trigger now.marked(i), self.edge(i, c)]
            now.marked(i) && !self.marked(i) && i != root && self.edge(i, c) && self.holds(c)
                ==> now.marked(c)
        &&& forall|k: int|
            0 <= k < done && k < self.children(root).len() && self.holds(
                #[trigger] self.children(root)[k],
            ) ==> now.marked(self.children(root)[k])
    }

    /// A slot that holds a payload is a path by itself.
    pub proof fn lemma_path_single(self, i: int)
        requires
            self.holds(i),
        ensures
            self.path(seq![i]),
            self.reaches(i, i),
            !self.marked(i) ==> self.unmarked_path(seq![i]) && self.reaches_unmarked(i, i),
    {
        let p = seq![i];
        assert(self.path(p));
        assert(p.first() == i && p.last() == i);
        if !self.marked(i) {
            assert(self.unmarked_path(p));
        }
    }

    /// A path goes on along an edge.
    pub proof fn lemma_path_push(self, p: Seq<int>, c: int)
        requires
            self.path(p),
            self.edge(p.last(), c),
            self.holds(c),
        ensures
            self.path(p.push(c)),
            p.push(c).first() == p.first(),
            p.push(c).last() == c,
            self.unmarked_path(p) && !self.marked(c) ==> self.unmarked_path(p.push(c)),
    {
        let q = p.push(c);
        assert forall|k: int| 0 <= k < q.len() implies self.holds(#[trigger] q[k]) by {
            if k < p.len() {
                assert(q[k] == p[k]);
            }
        }
        assert forall|k: int| 0 <= k < q.len() - 1 implies self.edge(#[trigger] q[k], q[k + 1]) by {
            if k < p.len() - 1 {
                assert(q[k] == p[k]);
                assert(q[k + 1] == p[k + 1]);
            } else {
                assert(q[k] == p.last());
            }
        }
        if self.unmarked_path(p) && !self.marked(c) {
            assert forall|k: int| 0 <= k < q.len() implies !self.marked(#[trigger] q[k]) by {
                if k < p.len() {
                    assert(q[k] == p[k]);
                }
            }
        }
    }

    /// A path can be entered along an edge.
    pub proof fn lemma_path_prepend(self, a: int, p: Seq<int>)
        requires
            self.path(p),
            self.holds(a),
            self.edge(a, p.first()),
        ensures
            self.path(seq![a] + p),
            (seq![a] + p).first() == a,
            (seq![a] + p).last() == p.last(),
            self.unmarked_path(p) && !self.marked(a) ==> self.unmarked_path(seq![a] + p),
    {
        let q = seq![a] + p;
        assert forall|k: int| 0 <= k < q.len() implies self.holds(#[trigger] q[k]) by {
            if k > 0 {
                assert(q[k] == p[k - 1]);
            }
        }
        assert forall|k: int| 0 <= k < q.len() - 1 implies self.edge(#[trigger] q[k], q[k + 1]) by {
            assert(q[k + 1] == p[k]);
            if k > 0 {
                assert(q[k] == p[k - 1]);
            }
        }
        if self.unmarked_path(p) && !self.marked(a) {
            assert forall|k: int| 0 <= k < q.len() implies !self.marked(#[trigger] q[k]) by {
                if k > 0 {
                    assert(q[k] == p[k - 1]);
                }
            }
        }
    }

    /// Heaps with the same payloads have the same paths; and where one has
    /// no mark that the other lacks, an unmarked path of the other is one of
    /// its own.
    pub proof fn lemma_same_paths(self, other: Heap<T>, p: Seq<int>)
        requires
            self.same_payloads(other),
            other.path(p),
        ensures
            self.path(p),
            self.marks_within(other) && other.unmarked_path(p) ==> self.unmarked_path(p),
    {
        assert forall|k: int| 0 <= k < p.len() implies self.holds(#[trigger] p[k]) by {
            assert(other.holds(p[k]));
        }
        assert forall|k: int| 0 <= k < p.len() - 1 implies self.edge(#[trigger] p[k], p[k + 1]) by {
            assert(other.holds(p[k]));
            assert(other.edge(p[k], p[k + 1]));
            assert(self.children(p[k]) == other.children(p[k]));
        }
        if self.marks_within(other) && other.unmarked_path(p) {
            assert forall|k: int| 0 <= k < p.len() implies !self.marked(#[trigger] p[k]) by {
                assert(!other.marked(p[k]));
            }
        }
    }

    /// Marking keeps a heap well formed, changes no payload, and removes no
    /// mark.
    pub proof fn lemma_mark_keeps(self, root: int)
        requires
            self.wf(),
        ensures
            self.mark(root).wf(),
            self.same_payloads(self.mark(root)),
            self.marks_within(self.mark(root)),
    {
        let after = self.mark(root);
        assert forall|i: int| #[trigger] after.marked(i) implies after.holds(i) by {
            if !self.marked(i) {
                let p = choose|p: Seq<int>| #[trigger]
                    self.unmarked_path(p) && p.first() == root && p.last() == i;
                assert(self.holds(p[p.len() - 1]));
            }
        }
        assert forall|k: int| 0 <= k < after.live.len() implies #[trigger] after.holds(
            after.live[k],
        ) by {
            assert(self.holds(self.live[k]));
        }
        assert forall|i: int| #[trigger] after.holds(i) implies after.live.contains(i) by {
            assert(self.holds(i));
        }
        assert forall|i: int| #[trigger] self.marked(i) implies after.marked(i) by {}
    }

    /// Marking a slot that is not unmarked changes nothing: it is marked
    /// already, or holds no payload, or does not exist.
    pub proof fn lemma_mark_nothing(self, root: int)
        requires
            !self.unmarked(root),
        ensures
            self.mark(root) == self,
    {
        let after = self.mark(root);
        assert forall|i: int| 0 <= i < self.slots.len() implies after.slots[i] == self.slots[i] by {
            if self.reaches_unmarked(root, i) {
                let p = choose|p: Seq<int>| #[trigger]
                    self.unmarked_path(p) && p.first() == root && p.last() == i;
                assert(self.holds(p[0]));
                assert(!self.marked(p[0]));
            }
        }
        assert(after.slots =~= self.slots);
    }

    /// The first mark of a slot's tracing.
    pub proof fn lemma_tracing_begins(self, now: Heap<T>, root: int)
        requires
            self.unmarked(root),
            self.same_payloads(now),
            forall|i: int|
                0 <= i < self.slots.len() ==> (#[trigger] now.slots[i]).marked == (
                self.slots[i].marked || i == root),
        ensures
            self.tracing(now, root, 0),
    {
        self.lemma_path_single(root);
        assert forall|i: int| #[trigger] self.marked(i) implies now.marked(i) by {
            assert(now.slots[i].marked);
        }
        assert(now.slots[root].marked);
        assert forall|i: int| #[trigger] now.marked(i) && !self.marked(i) implies self.reaches_unmarked(
            root,
            i,
        ) by {
            assert(now.slots[i].marked);
        }
        assert forall|i: int, c: int|
            #![trigger now.marked(i), self.edge(i, c)]
            now.marked(i) && !self.marked(i) && i != root && self.edge(i, c) && self.holds(
                c,
            ) implies now.marked(c) by {
            assert(now.slots[i].marked);
        }
    }

    /// One more child of the traced slot is done once it has been marked.
    pub proof fn lemma_tracing_goes_on(self, now: Heap<T>, root: int, done: int)
        requires
            self.tracing(now, root, done),
            0 <= done < self.children(root).len(),
        ensures
            self.tracing(now.mark(self.children(root)[done]), root, done + 1),
    {
        let child = self.children(root)[done];
        let next = now.mark(child);
        assert(self.edge(root, child));
        assert forall|i: int| #[trigger] self.marked(i) implies next.marked(i) by {
            assert(now.marked(i));
        }
        assert forall|i: int| 0 <= i < self.slots.len() implies (#[trigger] self.slots[i]).value
            == next.slots[i].value by {}
        assert(now.marked(root));
        assert(next.marked(root));
        assert forall|i: int| #[trigger] next.marked(i) && !self.marked(i) implies self.reaches_unmarked(
            root,
            i,
        ) by {
            if !now.marked(i) {
                let q = choose|q: Seq<int>| #[trigger]
                    now.unmarked_path(q) && q.first() == child && q.last() == i;
                self.lemma_same_paths(now, q);
                self.lemma_path_prepend(root, q);
                assert(self.unmarked_path(seq![root] + q));
            }
        }
        assert forall|i: int, c: int|
            #![trigger next.marked(i), self.edge(i, c)]
            next.marked(i) && !self.marked(i) && i != root && self.edge(i, c) && self.holds(
                c,
            ) implies next.marked(c) by {
            if now.marked(i) {
                assert(now.marked(c));
            } else if !now.marked(c) {
                let q = choose|q: Seq<int>| #[trigger]
                    now.unmarked_path(q) && q.first() == child && q.last() == i;
                assert(now.holds(q[q.len() - 1]));
                assert(now.children(i) == self.children(i));
                assert(now.holds(c));
                now.lemma_path_push(q, c);
                assert(now.unmarked_path(q.push(c)));
                assert(now.reaches_unmarked(child, c));
            }
        }
        assert forall|k: int|
            0 <= k < done + 1 && k < self.children(root).len() && self.holds(
                #[trigger] self.children(root)[k],
            ) implies next.marked(self.children(root)[k]) by {
            if k < done {
                assert(now.marked(self.children(root)[k]));
            } else if !now.marked(child) {
                assert(now.holds(child));
                now.lemma_path_single(child);
            }
        }
    }

    /// When every child of the traced slot is done, the heap is the one that
    /// marking the slot gives.
    pub proof fn lemma_tracing_ends(self, now: Heap<T>, root: int)
        requires
            self.tracing(now, root, self.children(root).len() as int),
        ensures
            now == self.mark(root),
    {
        let after = self.mark(root);
        assert forall|i: int| 0 <= i < self.slots.len() implies now.slots[i] == after.slots[i] by {
            assert(self.slots[i].value == now.slots[i].value);
            if self.reaches_unmarked(root, i) {
                let p = choose|p: Seq<int>| #[trigger]
                    self.unmarked_path(p) && p.first() == root && p.last() == i;
                self.lemma_tracing_covers(now, root, p, p.len() - 1);
            }
            if now.slots[i].marked && !self.slots[i].marked {
                assert(now.marked(i) && !self.marked(i));
            }
            if self.slots[i].marked {
                assert(self.marked(i));
                assert(now.marked(i));
            }
        }
        assert(now.slots =~= after.slots);
    }

    /// When every child of the traced slot is done, every slot on an
    /// unmarked path from it is marked.
    pub proof fn lemma_tracing_covers(self, now: Heap<T>, root: int, p: Seq<int>, k: int)
        requires
            self.tracing(now, root, self.children(root).len() as int),
            self.unmarked_path(p),
            p.first() == root,
            0 <= k < p.len(),
        ensures
            now.marked(p[k]),
        decreases k,
    {
        if k > 0 {
            self.lemma_tracing_covers(now, root, p, k - 1);
            let a = p[k - 1];
            let b = p[k];
            assert(self.edge(a, b));
            assert(self.holds(b));
            assert(!self.marked(a));
            if a == root {
                let j = choose|j: int|
                    0 <= j < self.children(root).len() && self.children(root)[j] == b;
                assert(self.holds(self.children(root)[j]));
            } else {
                assert(now.marked(a) && self.edge(a, b));
            }
        }
    }
    /// Added marks leave no more slots unmarked, and fewer where a slot got
    /// its mark.
    pub proof fn lemma_count_unmarked(self, now: Heap<T>, n: nat)
        requires
            self.same_payloads(now),
            self.marks_within(now),
            n <= self.slots.len(),
        ensures
            now.count_unmarked(n) <= self.count_unmarked(n),
            forall|j: int|
                0 <= j < n && self.unmarked(j) && #[trigger] now.marked(j) ==> now.count_unmarked(n)
                    < self.count_unmarked(n),
        decreases n,
    {
        if n > 0 {
            self.lemma_count_unmarked(now, (n - 1) as nat);
            let last = n - 1;
            assert(self.slots[last].value == now.slots[last].value);
            if now.unmarked(last) {
                if self.marked(last) {
                    assert(now.marked(last));
                }
            }
        }
    }

    /// Allocating keeps a heap well formed, and leaves a clean heap clean.
    pub proof fn lemma_allocate_keeps(self, value: T)
        requires
            self.wf(),
        ensures
            self.allocate(value).wf(),
            self.clean() ==> self.allocate(value).clean(),
    {
        let after = self.allocate(value);
        let n = self.slots.len() as int;
        assert forall|i: int| #[trigger] after.marked(i) implies after.holds(i) by {
            if i < n {
                assert(self.marked(i));
            }
        }
        assert forall|k: int| 0 <= k < after.live.len() implies #[trigger] after.holds(
            after.live[k],
        ) by {
            if k < self.live.len() {
                assert(self.holds(self.live[k]));
            }
        }
        assert forall|j: int, k: int| 0 <= j < k < after.live.len() implies after.live[j]
            < after.live[k] by {
            assert(self.holds(self.live[j]));
        }
        assert forall|i: int| #[trigger] after.holds(i) implies after.live.contains(i) by {
            if i < n {
                assert(self.holds(i));
                let k = choose|k: int| 0 <= k < self.live.len() && self.live[k] == i;
                assert(after.live[k] == i);
            } else {
                assert(after.live[self.live.len() as int] == i);
            }
        }
        if self.clean() {
            assert forall|i: int| !#[trigger] after.marked(i) by {
                if 0 <= i < n {
                    assert(!self.marked(i));
                }
            }
        }
    }

    /// Sweeping keeps a heap well formed, and leaves it clean.
    pub proof fn lemma_sweep_keeps(self)
        requires
            self.wf(),
        ensures
            self.sweep().wf(),
            self.sweep().clean(),
    {
        let after = self.sweep();
        let pred = |i: int| self.marked(i);
        lemma_filter_increasing(self.live, pred);
        assert forall|k: int| 0 <= k < after.live.len() implies #[trigger] after.holds(
            after.live[k],
        ) by {
            assert(pred(after.live[k]));
            assert(self.marked(after.live[k]));
            assert(self.holds(after.live[k]));
        }
        assert forall|i: int| #[trigger] after.holds(i) implies after.live.contains(i) by {
            assert(self.marked(i));
            assert(self.holds(i));
            let k = choose|k: int| 0 <= k < self.live.len() && self.live[k] == i;
            assert(pred(self.live[k]));
        }
    }
}

} // verus!
