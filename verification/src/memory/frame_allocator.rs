use vstd::prelude::*;
use crate::consts::{MAX_PHYSICAL_PAGES, MAX_PPN};

verus! {

/// `s` is a power of two.
pub open spec fn is_pow2(s: nat) -> bool
    decreases s,
{
    s == 1 || (s > 1 && s % 2 == 0 && is_pow2(s / 2))
}

/// Node `i` of the tree is a strict ancestor of node `p`.
pub open spec fn is_ancestor(i: nat, p: nat) -> bool
    decreases p,
{
    p >= 2 && (p / 2 == i || is_ancestor(i, p / 2))
}

/// An inner node is marked full exactly when both of its children are.
pub open spec fn node_ok(a: Seq<u8>, i: int) -> bool {
    &&& a[i] <= 1
    &&& a[i] == 1 <==> (a[2 * i] == 1 && a[2 * i + 1] == 1)
}

/// Every leaf below node `p`, which spans `s` leaves, is taken.
pub open spec fn subtree_full(a: Seq<u8>, p: nat, s: nat) -> bool {
    forall|j: int| p * s <= j < p * s + s ==> a[j] == 1
}

/// Allocator of physical frames over the page numbers `[lo, lo + n)`.
///
/// A complete binary tree over `m` leaves, stored as a heap in `a`: node `i`
/// has the children `2i` and `2i + 1`, the leaves are the nodes `m..2m`, and
/// leaf `m + k` stands for the frame `lo + k`. A node holds 1 when no frame
/// below it is free.
pub struct SegmentTreeAllocator {
    a: Vec<u8>,
    m: usize,
    n: usize,
    offset: u64,
    free: usize,
}

impl SegmentTreeAllocator {
    /// The tree is consistent with its leaves.
    pub closed spec fn wf(&self) -> bool {
        &&& self.m >= 1
        &&& is_pow2(self.m as nat)
        &&& self.n <= self.m
        &&& self.m <= 2 * MAX_PHYSICAL_PAGES
        &&& self.a@.len() == 2 * self.m
        &&& self.offset + self.n <= MAX_PPN
        &&& forall|i: int| 1 <= i < self.m ==> node_ok(self.a@, i)
        &&& forall|j: int| self.m <= j < 2 * self.m ==> #[trigger] self.a@[j] <= 1
        &&& forall|j: int| self.m + self.n <= j < 2 * self.m ==> self.a@[j] == 1
        &&& self.free == self.free_set().len()
    }

    /// First page number of the managed range.
    pub closed spec fn lo(&self) -> nat {
        self.offset as nat
    }

    /// One past the last page number of the managed range.
    pub closed spec fn hi(&self) -> nat {
        (self.offset + self.n) as nat
    }

    /// Frame `ppn` is managed by this allocator and not handed out.
    pub closed spec fn is_free(&self, ppn: nat) -> bool {
        &&& self.offset <= ppn < self.offset + self.n
        &&& self.a@[self.m + ppn - self.offset] == 0
    }

    /// The frames that are free.
    pub open spec fn free_set(&self) -> Set<nat> {
        Set::new(|ppn: nat| self.is_free(ppn))
    }

    /// The frames that are handed out.
    pub open spec fn taken_set(&self) -> Set<nat> {
        Set::new(|ppn: nat| self.lo() <= ppn < self.hi() && !self.is_free(ppn))
    }

    /// The frames of the managed range.
    pub open spec fn range_set(&self) -> Set<nat> {
        Set::new(|ppn: nat| self.lo() <= ppn < self.hi())
    }

    /// A free frame lies in the managed range.
    pub proof fn lemma_free_in_range(&self, ppn: nat)
        requires
            self.is_free(ppn),
        ensures
            self.lo() <= ppn < self.hi(),
    {
    }

    /// The managed range holds page numbers of at most 44 bits.
    pub proof fn lemma_range_bound(&self)
        requires
            self.wf(),
        ensures
            self.lo() <= self.hi() <= MAX_PPN,
    {
    }

    /// The free frames and the frames handed out partition the managed range:
    /// every frame of the range is in exactly one of the two sets, and
    /// neither holds a frame from outside it.
    pub proof fn lemma_partition(&self)
        requires
            self.wf(),
        ensures
            self.free_set().union(self.taken_set()) == self.range_set(),
            self.free_set().disjoint(self.taken_set()),
            self.free_set().finite(),
            self.taken_set().finite(),
    {
        assert(self.free_set().union(self.taken_set()) =~= self.range_set());
        self.lemma_range_finite();
        let r = self.range_set();
        assert(self.free_set().subset_of(r));
        assert(self.taken_set().subset_of(r));
        vstd::set_lib::lemma_len_subset(self.free_set(), r);
        vstd::set_lib::lemma_len_subset(self.taken_set(), r);
    }

    proof fn lemma_range_finite(&self)
        ensures
            self.range_set().finite(),
            self.range_set().len() == self.hi() - self.lo(),
    {
        lemma_interval(self.lo(), self.hi());
        assert(self.range_set() =~= interval(self.lo(), self.hi()));
    }
}


proof fn lemma_child_span(p: nat, s: nat)
    requires
        s % 2 == 0,
    ensures
        (2 * p) * (s / 2) == p * s,
        (2 * p + 1) * (s / 2) == p * s + s / 2,
{
    assert((2 * p) * (s / 2) == p * s) by (nonlinear_arith)
        requires
            s % 2 == 0,
    ;
    assert((2 * p + 1) * (s / 2) == p * s + s / 2) by (nonlinear_arith)
        requires
            s % 2 == 0,
    ;
}

proof fn lemma_inner(p: nat, s: nat, m: nat)
    requires
        s >= 2,
        p >= 1,
        p * s + s <= 2 * m,
    ensures
        p < m,
{
    assert(p * s >= p * 2) by (nonlinear_arith)
        requires
            s >= 2,
    ;
}

proof fn lemma_leaf(p: nat, s: nat, m: nat)
    requires
        s >= 1,
        p >= m,
        p * s + s <= 2 * m,
        m >= 1,
    ensures
        s == 1,
{
    if s >= 2 {
        assert(p * s >= p * 2) by (nonlinear_arith)
            requires
                s >= 2,
        ;
    }
}

/// A node marked full has only taken leaves below it.
proof fn lemma_full(a: Seq<u8>, m: nat, p: nat, s: nat)
    requires
        is_pow2(s),
        p >= 1,
        m <= p * s,
        p * s + s <= 2 * m,
        a.len() == 2 * m,
        forall|i: int| 1 <= i < m ==> node_ok(a, i),
        a[p as int] == 1,
    ensures
        subtree_full(a, p, s),
    decreases s,
{
    if s == 1 {
        assert(p * s == p) by (nonlinear_arith)
            requires
                s == 1,
        ;
    } else {
        lemma_inner(p, s, m);
        lemma_child_span(p, s);
        assert(node_ok(a, p as int));
        lemma_full(a, m, 2 * p, s / 2);
        lemma_full(a, m, 2 * p + 1, s / 2);
        assert forall|j: int| p * s <= j < p * s + s implies a[j] == 1 by {
            if j < p * s + s / 2 {
                assert((2 * p) * (s / 2) <= j < (2 * p) * (s / 2) + s / 2);
            } else {
                assert((2 * p + 1) * (s / 2) <= j < (2 * p + 1) * (s / 2) + s / 2);
            }
        }
    }
}

fn both(x: u8, y: u8) -> (r: u8)
    ensures
        r <= 1,
        r == 1 <==> (x == 1 && y == 1),
{
    if x == 1 && y == 1 {
        1
    } else {
        0
    }
}

impl SegmentTreeAllocator {
    /// An allocator over the frames `[l, r)`, all of them free.
    pub fn new(l: u64, r: u64) -> (s: Self)
        requires
            l <= r,
            r - l <= MAX_PHYSICAL_PAGES,
            r <= MAX_PPN,
        ensures
            s.wf(),
            s.lo() == l,
            s.hi() == r,
            forall|ppn: nat| s.is_free(ppn) <==> l <= ppn < r,
            s.free_set().len() == r - l,
    {
        let n: usize = (r - l) as usize;
        let mut m: usize = 1;
        while m < n
            invariant
                1 <= m,
                m <= 2 * MAX_PHYSICAL_PAGES,
                n <= MAX_PHYSICAL_PAGES,
                is_pow2(m as nat),
                m < n ==> m <= MAX_PHYSICAL_PAGES,
            decreases 2 * MAX_PHYSICAL_PAGES - m,
        {
            m = 2 * m;
        }
        let mut a: Vec<u8> = Vec::new();
        let mut k: usize = 0;
        while k < 2 * m
            invariant
                k <= 2 * m,
                m <= 2 * MAX_PHYSICAL_PAGES,
                n <= m,
                a@.len() == k,
                forall|j: int| 0 <= j < k ==> a@[j] == (if m <= j < m + n { 0u8 } else { 1u8 }),
            decreases 2 * m - k,
        {
            if m <= k && k < m + n {
                a.push(0);
            } else {
                a.push(1);
            }
            k = k + 1;
        }
        let mut i: usize = m;
        while i > 1
            invariant
                1 <= i <= m,
                m <= 2 * MAX_PHYSICAL_PAGES,
                n <= m,
                a@.len() == 2 * m,
                forall|j: int| m <= j < 2 * m ==> a@[j] == (if j < m + n { 0u8 } else { 1u8 }),
                forall|q: int| i <= q < m ==> node_ok(a@, q),
            decreases i,
        {
            i = i - 1;
            let v = both(a[2 * i], a[2 * i + 1]);
            let ghost before = a@;
            a.set(i, v);
            assert forall|q: int| i <= q < m implies node_ok(a@, q) by {
                if q > i {
                    assert(node_ok(before, q));
                }
            }
        }
        let s = SegmentTreeAllocator { a, m, n, offset: l, free: n };
        proof {
            assert forall|ppn: nat| s.is_free(ppn) <==> l <= ppn < r by {}
            assert(s.free_set() =~= interval(l as nat, r as nat));
            lemma_interval(l as nat, r as nat);
        }
        s
    }

    /// Number of free frames.
    pub fn num_free(&self) -> (k: usize)
        requires
            self.wf(),
        ensures
            k == self.free_set().len(),
    {
        self.free
    }

    /// Recomputes the marks of the strict ancestors of leaf `p`.
    fn bubble(&mut self, p: usize)
        requires
            old(self).m >= 1,
            old(self).a@.len() == 2 * old(self).m,
            old(self).m <= p < 2 * old(self).m,
            forall|i: int|
                1 <= i < old(self).m && !is_ancestor(i as nat, p as nat) ==> node_ok(
                    old(self).a@,
                    i,
                ),
        ensures
            final(self).m == old(self).m,
            final(self).n == old(self).n,
            final(self).offset == old(self).offset,
            final(self).free == old(self).free,
            final(self).a@.len() == old(self).a@.len(),
            forall|j: int|
                old(self).m <= j < 2 * old(self).m ==> final(self).a@[j] == old(self).a@[j],
            forall|i: int| 1 <= i < final(self).m ==> node_ok(final(self).a@, i),
    {
        let mut c: usize = p;
        while c > 1
            invariant
                1 <= c < 2 * self.m,
                self.m == old(self).m,
                self.n == old(self).n,
                self.offset == old(self).offset,
                self.free == old(self).free,
                self.a@.len() == 2 * self.m,
                forall|j: int| self.m <= j < 2 * self.m ==> self.a@[j] == old(self).a@[j],
                forall|i: int|
                    1 <= i < self.m && !is_ancestor(i as nat, c as nat) ==> node_ok(self.a@, i),
            decreases c,
        {
            let ghost before = self.a@;
            let ghost child = c;
            c = c / 2;
            let v = both(self.a[2 * c], self.a[2 * c + 1]);
            self.a.set(c, v);
            assert forall|i: int| 1 <= i < self.m && !is_ancestor(i as nat, c as nat) implies node_ok(
                self.a@,
                i,
            ) by {
                if i != c {
                    assert(!is_ancestor(i as nat, child as nat));
                    assert(node_ok(before, i));
                    if 2 * i == c || 2 * i + 1 == c {
                        assert(c / 2 == i);
                        assert(is_ancestor(i as nat, c as nat));
                    }
                }
            }
        }
        assert forall|i: int| 1 <= i < self.m implies node_ok(self.a@, i) by {
            assert(!is_ancestor(i as nat, c as nat));
        }
    }

    /// Hands out the free frame with the lowest page number, or `None` when
    /// no frame is free.
    pub fn allocate(&mut self) -> (r: Option<u64>)
        requires
            old(self).wf(),
        ensures
            final(self).wf(),
            final(self).lo() == old(self).lo(),
            final(self).hi() == old(self).hi(),
            r is None <==> old(self).free_set() =~= Set::<nat>::empty(),
            r is None ==> *final(self) == *old(self),
            r matches Some(ppn) ==> {
                &&& old(self).is_free(ppn as nat)
                &&& forall|q: nat| q < ppn ==> !old(self).is_free(q)
                &&& forall|q: nat| final(self).is_free(q) <==> (old(self).is_free(q) && q != ppn)
                &&& final(self).free_set() == old(self).free_set().remove(ppn as nat)
                &&& final(self).free_set().len() == old(self).free_set().len() - 1
            },
    {
        if self.a[1] == 1 {
            proof {
                let m = self.m as nat;
                assert(1 * m == m) by (nonlinear_arith);
                if m == 1 {
                    assert(self.a@[1] == 1);
                } else {
                    lemma_full(self.a@, m, 1, m);
                }
                assert forall|q: nat| !self.is_free(q) by {
                    if self.offset <= q < self.offset + self.n {
                        let j = self.m + q - self.offset;
                        assert(1 * m <= j < 1 * m + m);
                    }
                }
                assert(self.free_set() =~= Set::<nat>::empty());
            }
            return None;
        }
        let mut p: usize = 1;
        let ghost mut s: nat = self.m as nat;
        proof {
            assert(1 * s == s) by (nonlinear_arith);
            if self.m == 1 {
                assert(self.a@[1] <= 1);
            } else {
                assert(node_ok(self.a@, 1));
            }
        }
        while p < self.m
            invariant
                self.wf(),
                *self == *old(self),
                p >= 1,
                is_pow2(s),
                self.m <= p * s,
                p * s + s <= 2 * self.m,
                self.a@[p as int] == 0,
                forall|j: int| self.m <= j < p * s ==> self.a@[j] == 1,
            decreases s,
        {
            proof {
                if s == 1 {
                    assert(p * s == p) by (nonlinear_arith)
                        requires
                            s == 1,
                    ;
                }
                lemma_child_span(p as nat, s);
                assert(node_ok(self.a@, p as int));
            }
            if self.a[2 * p] == 0 {
                p = 2 * p;
            } else {
                proof {
                    assert(self.a@[2 * p] <= 1) by {
                        if 2 * p < self.m {
                            assert(node_ok(self.a@, 2 * p));
                        }
                    }
                    lemma_full(self.a@, self.m as nat, (2 * p) as nat, s / 2);
                    assert forall|j: int| self.m <= j < (2 * p + 1) * (s / 2) implies self.a@[j]
                        == 1 by {
                        if j >= p * s {
                            assert((2 * p) * (s / 2) <= j < (2 * p) * (s / 2) + s / 2);
                        }
                    }
                    assert(self.a@[2 * p + 1] <= 1) by {
                        if 2 * p + 1 < self.m {
                            assert(node_ok(self.a@, 2 * p + 1));
                        }
                    }
                }
                p = 2 * p + 1;
            }
            proof {
                s = s / 2;
            }
        }
        proof {
            lemma_leaf(p as nat, s, self.m as nat);
            assert(p * s == p) by (nonlinear_arith)
                requires
                    s == 1,
            ;
        }
        let ppn: u64 = self.offset + (p - self.m) as u64;
        let ghost before = *self;
        self.a.set(p, 1);
        proof {
            assert forall|i: int|
                1 <= i < self.m && !is_ancestor(i as nat, p as nat) implies node_ok(self.a@, i) by {
                assert(node_ok(before.a@, i));
                if 2 * i == p || 2 * i + 1 == p {
                    assert(p / 2 == i);
                }
            }
        }
        self.bubble(p);
        proof {
            assert(before.is_free(ppn as nat));
            assert forall|q: nat| self.is_free(q) <==> (before.is_free(q) && q != ppn) by {
                if before.offset <= q < before.offset + before.n {
                    let j = before.m + q - before.offset;
                    assert(self.a@[j] == (if j == p { 1u8 } else { before.a@[j] }));
                }
            }
            assert forall|q: nat| q < ppn implies !before.is_free(q) by {
                if before.offset <= q {
                    let j = before.m + q - before.offset;
                    assert(before.m <= j < p);
                }
            }
            assert(self.free_set() =~= before.free_set().remove(ppn as nat));
            before.lemma_partition();
            assert forall|j: int| self.m <= j < 2 * self.m implies #[trigger] self.a@[j] <= 1 by {
                assert(before.a@[j] <= 1);
            }
            assert(before.free_set().contains(ppn as nat));
            assert(before.free_set().remove(ppn as nat).len() == before.free_set().len() - 1);
        }
        self.free = self.free - 1;
        proof {
            assert(self.free_set() =~= before.free_set().remove(ppn as nat));
            assert forall|j: int| self.m + self.n <= j < 2 * self.m implies self.a@[j] == 1 by {
                assert(before.a@[j] == 1);
            }
        }
        Some(ppn)
    }

    /// Takes back the frame `ppn`.
    pub fn dealloc(&mut self, ppn: u64)
        requires
            old(self).wf(),
            old(self).lo() <= ppn < old(self).hi(),
            !old(self).is_free(ppn as nat),
        ensures
            final(self).wf(),
            final(self).lo() == old(self).lo(),
            final(self).hi() == old(self).hi(),
            forall|q: nat| final(self).is_free(q) <==> (old(self).is_free(q) || q == ppn),
            final(self).free_set() == old(self).free_set().insert(ppn as nat),
            final(self).free_set().len() == old(self).free_set().len() + 1,
    {
        let p: usize = self.m + (ppn - self.offset) as usize;
        let ghost before = *self;
        self.a.set(p, 0);
        proof {
            assert forall|i: int|
                1 <= i < self.m && !is_ancestor(i as nat, p as nat) implies node_ok(self.a@, i) by {
                assert(node_ok(before.a@, i));
                if 2 * i == p || 2 * i + 1 == p {
                    assert(p / 2 == i);
                }
            }
            before.lemma_partition();
            before.lemma_range_finite();
            vstd::set_lib::lemma_len_subset(before.free_set(), before.range_set());
        }
        self.bubble(p);
        proof {
            assert forall|q: nat| self.is_free(q) <==> (before.is_free(q) || q == ppn) by {
                if before.offset <= q < before.offset + before.n {
                    let j = before.m + q - before.offset;
                    assert(self.a@[j] == (if j == p { 0u8 } else { before.a@[j] }));
                }
            }
            assert(self.free_set() =~= before.free_set().insert(ppn as nat));
            assert forall|j: int| self.m <= j < 2 * self.m implies #[trigger] self.a@[j] <= 1 by {
                assert(before.a@[j] <= 1);
            }
            assert(!before.free_set().contains(ppn as nat));
            assert(before.free_set().insert(ppn as nat).len() == before.free_set().len() + 1);
            assert(before.free_set().len() < before.range_set().len()) by {
                assert(before.free_set().insert(ppn as nat).subset_of(before.range_set()));
                vstd::set_lib::lemma_len_subset(
                    before.free_set().insert(ppn as nat),
                    before.range_set(),
                );
            }
        }
        self.free = self.free + 1;
        proof {
            assert(self.free_set() =~= before.free_set().insert(ppn as nat));
            assert forall|j: int| self.m + self.n <= j < 2 * self.m implies self.a@[j] == 1 by {
                assert(before.a@[j] == 1);
            }
        }
    }
}

/// The page numbers `[lo, hi)`.
pub open spec fn interval(lo: nat, hi: nat) -> Set<nat> {
    Set::new(|x: nat| lo <= x < hi)
}

/// A range of page numbers is finite and holds as many as its length.
pub proof fn lemma_interval(lo: nat, hi: nat)
    requires
        lo <= hi,
    ensures
        interval(lo, hi).finite(),
        interval(lo, hi).len() == hi - lo,
    decreases hi - lo,
{
    if lo == hi {
        assert(interval(lo, hi) =~= Set::<nat>::empty());
    } else {
        lemma_interval(lo, (hi - 1) as nat);
        assert(interval(lo, hi) =~= interval(lo, (hi - 1) as nat).insert((hi - 1) as nat));
    }
}

} // verus!
