use vstd::prelude::*;

verus! {

/// Opaque token that identifies a live slot of a heap by the slot's address.
#[derive(Clone, Copy, Debug, PartialEq, Eq, Structural)]
pub struct Handle {
    addr: usize,
}

impl Handle {
    pub closed spec fn spec_addr(&self) -> usize {
        self.addr
    }

    /// The address of the slot this handle stands for.
    pub fn addr(&self) -> (r: usize)
        ensures
            r == self.spec_addr(),
    {
        self.addr
    }
}

/// Why a heap could not be created or could not take another resource.
#[derive(Clone, Copy, Debug, PartialEq, Eq, Structural)]
pub enum HeapError {
    /// The address region for the slots cannot be laid out.
    Reserve,
    /// Every slot holds a live resource.
    Full,
}

/// What a `dealloc` did to the slot at the given address.
#[derive(Debug)]
pub enum Release<T> {
    /// The last reference went away: the slot is free again and the resource
    /// is handed back for its native teardown.
    Freed(T),
    /// A reference went away and others remain.
    Retained,
    /// The address names no live slot of this heap; nothing changed.
    NotLive,
}

/// A fixed-capacity arena of reference-counted slots for one resource kind.
///
/// Slot `i` lives at address `base + i * stride`; the heap occupies the
/// half-open address range `[base, base + capacity * stride)`.
pub struct ResourceHeap<T> {
    base: usize,
    stride: usize,
    values: Vec<Option<T>>,
    refs: Vec<usize>,
}

/// Index of the first slot whose reference count is zero, if any.
pub open spec fn first_free(counts: Seq<nat>) -> Option<int>
    decreases counts.len(),
{
    if counts.len() == 0 {
        None
    } else if counts[0] == 0 {
        Some(0)
    } else {
        match first_free(counts.drop_first()) {
            Some(i) => Some(i + 1),
            None => None,
        }
    }
}

/// `first_free` names the lowest free slot, and is `None` only when no slot is free.
pub proof fn lemma_first_free(counts: Seq<nat>)
    ensures
        match first_free(counts) {
            Some(i) => 0 <= i < counts.len() && counts[i] == 0 && forall|j: int|
                0 <= j < i ==> counts[j] != 0,
            None => forall|j: int| 0 <= j < counts.len() ==> counts[j] != 0,
        },
    decreases counts.len(),
{
    if counts.len() > 0 && counts[0] != 0 {
        let rest = counts.drop_first();
        lemma_first_free(rest);
        assert forall|j: int| 1 <= j < counts.len() implies counts[j] == rest[j - 1] by {}
    }
}


/// The reference counts after one `alloc_for`.
pub open spec fn after_alloc(counts: Seq<nat>) -> Seq<nat> {
    match first_free(counts) {
        Some(i) => counts.update(i, 1),
        None => counts,
    }
}

/// The reference counts after `k` calls of `alloc_for`.
pub open spec fn after_allocs(counts: Seq<nat>, k: nat) -> Seq<nat>
    decreases k,
{
    if k == 0 {
        counts
    } else {
        after_alloc(after_allocs(counts, (k - 1) as nat))
    }
}

/// The reference counts after `k` references to slot `i` are dropped.
pub open spec fn after_releases(counts: Seq<nat>, i: int, k: nat) -> Seq<nat>
    decreases k,
{
    if k == 0 {
        counts
    } else {
        let c = after_releases(counts, i, (k - 1) as nat);
        c.update(i, (c[i] - 1) as nat)
    }
}

/// Allocating into an empty heap of `n` slots fills the slots in order: the
/// allocation after `k` earlier ones takes slot `k`, so no two of the first
/// `n` share a slot (and slots have distinct addresses), and once all `n`
/// are taken the next allocation finds no free slot.
pub proof fn lemma_allocs_fill_in_order(n: nat, k: nat)
    requires
        k <= n,
    ensures
        after_allocs(Seq::new(n, |j: int| 0nat), k) == Seq::new(n, |j: int| if j < k { 1nat } else { 0nat }),
        k < n ==> first_free(after_allocs(Seq::new(n, |j: int| 0nat), k)) == Some(k as int),
        k == n ==> first_free(after_allocs(Seq::new(n, |j: int| 0nat), k)) is None,
    decreases k,
{
    let zeros = Seq::new(n, |j: int| 0nat);
    let c = after_allocs(zeros, k);
    if k == 0 {
        assert(zeros =~= Seq::new(n, |j: int| if j < k { 1nat } else { 0nat }));
    } else {
        lemma_allocs_fill_in_order(n, (k - 1) as nat);
        let prev = after_allocs(zeros, (k - 1) as nat);
        assert(prev.update(k - 1, 1) =~= Seq::new(n, |j: int| if j < k { 1nat } else { 0nat }));
    }
    lemma_first_free(c);
    if k < n {
        assert(c[k as int] == 0);
        match first_free(c) {
            Some(i) => {
                if i < k {
                    assert(c[i] == 1);
                }
            },
            None => {},
        }
    } else {
        match first_free(c) {
            Some(i) => {
                assert(c[i] == 1);
            },
            None => {},
        }
    }
}

/// A slot allocated with one reference and retained until it holds `n` is
/// still live after `n - 1` releases, and free after `n`, so that a later
/// allocation finds a free slot.
pub proof fn lemma_release_frees_at_zero(counts: Seq<nat>, i: int, n: nat)
    requires
        0 <= i < counts.len(),
        counts[i] == n,
        n > 0,
    ensures
        after_releases(counts, i, (n - 1) as nat)[i] == 1,
        after_releases(counts, i, n)[i] == 0,
        first_free(after_releases(counts, i, n)) is Some,
{
    lemma_release_count(counts, i, n);
    lemma_release_count(counts, i, (n - 1) as nat);
    let c = after_releases(counts, i, n);
    lemma_first_free(c);
    if first_free(c) is None {
        assert(c[i] != 0);
    }
}

/// One more `dealloc` after `k` of them is `k + 1` of them, and one more
/// `alloc_for` after `k` of them is `k + 1` of them: the single-call contracts
/// of `dealloc` and `alloc_for` compose into `after_releases` and `after_allocs`.
pub proof fn lemma_calls_compose(counts: Seq<nat>, i: int, k: nat)
    ensures
        after_releases(after_releases(counts, i, k), i, 1) == after_releases(counts, i, k + 1),
        after_alloc(after_allocs(counts, k)) == after_allocs(counts, k + 1),
{
    assert(after_releases(after_releases(counts, i, k), i, 0) == after_releases(counts, i, k));
}

proof fn lemma_release_count(counts: Seq<nat>, i: int, k: nat)
    requires
        0 <= i < counts.len(),
        k <= counts[i],
    ensures
        after_releases(counts, i, k).len() == counts.len(),
        after_releases(counts, i, k)[i] == counts[i] - k,
    decreases k,
{
    if k > 0 {
        lemma_release_count(counts, i, (k - 1) as nat);
    }
}

impl<T> ResourceHeap<T> {
    pub closed spec fn spec_base(&self) -> int {
        self.base as int
    }

    pub closed spec fn spec_stride(&self) -> int {
        self.stride as int
    }

    pub closed spec fn spec_capacity(&self) -> nat {
        self.values@.len()
    }

    /// The reference count of every slot, in slot order.
    pub closed spec fn counts(&self) -> Seq<nat> {
        self.refs@.map_values(|c: usize| c as nat)
    }

    /// The resource held by every slot, in slot order.
    pub closed spec fn contents(&self) -> Seq<Option<T>> {
        self.values@
    }

    pub open spec fn slot_addr(&self, i: int) -> int {
        self.spec_base() + i * self.spec_stride()
    }

    pub open spec fn spec_end(&self) -> int {
        self.spec_base() + self.spec_capacity() * self.spec_stride()
    }

    pub open spec fn spec_in_range(&self, addr: int) -> bool {
        self.spec_base() <= addr < self.spec_end()
    }

    /// Slot `i` exists and `addr` is its address.
    pub open spec fn is_slot(&self, addr: int, i: int) -> bool {
        0 <= i < self.spec_capacity() && addr == self.slot_addr(i)
    }

    pub open spec fn is_live(&self, i: int) -> bool {
        0 <= i < self.spec_capacity() && self.counts()[i] > 0
    }

    pub closed spec fn wf(&self) -> bool {
        &&& self.values@.len() == self.refs@.len()
        &&& self.stride > 0
        &&& self.base + self.values@.len() * self.stride <= usize::MAX
        &&& forall|i: int|
            0 <= i < self.values@.len() ==> (#[trigger] self.refs@[i] == 0 <==> self.values@[i] is None)
    }

    pub proof fn lemma_wf_facts(&self)
        requires
            self.wf(),
        ensures
            self.counts().len() == self.spec_capacity(),
            self.contents().len() == self.spec_capacity(),
            self.spec_stride() > 0,
            self.spec_base() >= 0,
            self.spec_end() <= usize::MAX,
            forall|i: int|
                0 <= i < self.spec_capacity() ==> (#[trigger] self.counts()[i] == 0
                    <==> self.contents()[i] is None),
    {
        assert forall|i: int| 0 <= i < self.spec_capacity() implies (#[trigger] self.counts()[i] == 0
            <==> self.contents()[i] is None) by {
            assert(self.refs@[i] == 0 <==> self.values@[i] is None);
        }
    }

    proof fn lemma_counts(&self)
        ensures
            self.counts().len() == self.refs@.len(),
            forall|i: int| 0 <= i < self.refs@.len() ==> #[trigger] self.counts()[i] == self.refs@[i] as nat,
    {
    }

    /// Lays out `capacity` free slots of `stride` bytes from address `base`.
    /// Fails when the stride is zero or the region would pass the end of the
    /// address space.
    pub fn new(base: usize, stride: usize, capacity: usize) -> (r: Result<Self, HeapError>)
        ensures
            match r {
                Ok(h) => {
                    &&& stride > 0
                    &&& base + capacity * stride <= usize::MAX
                    &&& h.wf()
                    &&& h.spec_base() == base
                    &&& h.spec_stride() == stride
                    &&& h.spec_capacity() == capacity
                    &&& h.counts() == Seq::new(capacity as nat, |i: int| 0nat)
                    &&& h.contents() == Seq::new(capacity as nat, |i: int| None::<T>)
                },
                Err(e) => e == HeapError::Reserve && (stride == 0 || base + capacity * stride
                    > usize::MAX),
            },
    {
        if stride == 0 {
            return Err(HeapError::Reserve);
        }
        let size = match capacity.checked_mul(stride) {
            Some(s) => s,
            None => return Err(HeapError::Reserve),
        };
        if base.checked_add(size).is_none() {
            return Err(HeapError::Reserve);
        }
        let mut values: Vec<Option<T>> = Vec::new();
        let mut refs: Vec<usize> = Vec::new();
        let mut k: usize = 0;
        while k < capacity
            invariant
                k <= capacity,
                values@.len() == k,
                refs@.len() == k,
                forall|i: int| 0 <= i < k ==> values@[i] is None,
                forall|i: int| 0 <= i < k ==> refs@[i] == 0,
            decreases capacity - k,
        {
            values.push(None);
            refs.push(0);
            k = k + 1;
        }
        let h = ResourceHeap { base, stride, values, refs };
        assert(h.counts() =~= Seq::new(capacity as nat, |i: int| 0nat));
        assert(h.contents() =~= Seq::new(capacity as nat, |i: int| None::<T>));
        Ok(h)
    }

    pub fn capacity(&self) -> (r: usize)
        requires
            self.wf(),
        ensures
            r == self.spec_capacity(),
    {
        self.values.len()
    }

    /// The first address of the heap's region.
    pub fn base(&self) -> (r: usize)
        ensures
            r == self.spec_base(),
    {
        self.base
    }

    /// The first address past the heap's region.
    pub fn end(&self) -> (r: usize)
        requires
            self.wf(),
        ensures
            r == self.spec_end(),
    {
        proof {
            self.lemma_wf_facts();
            self.lemma_counts();
        }
        self.base + self.values.len() * self.stride
    }

    /// Two distinct slots never share an address.
    pub proof fn lemma_slot_addr_injective(&self, i: int, j: int)
        requires
            self.wf(),
            i != j,
        ensures
            self.slot_addr(i) != self.slot_addr(j),
    {
        let s = self.spec_stride();
        assert(s > 0);
        assert(i * s != j * s) by (nonlinear_arith)
            requires
                s > 0,
                i != j,
        ;
    }

    /// From an empty heap, the `j`-th and `k`-th allocations (counting from
    /// zero) both succeed when `j < k` is below the capacity, and hand out
    /// different addresses.
    pub proof fn lemma_fresh_handles_distinct(&self, j: nat, k: nat)
        requires
            self.wf(),
            self.counts() == Seq::new(self.spec_capacity(), |i: int| 0nat),
            j < k < self.spec_capacity(),
        ensures
            first_free(after_allocs(self.counts(), j)) == Some(j as int),
            first_free(after_allocs(self.counts(), k)) == Some(k as int),
            self.slot_addr(j as int) != self.slot_addr(k as int),
    {
        lemma_allocs_fill_in_order(self.spec_capacity(), j);
        lemma_allocs_fill_in_order(self.spec_capacity(), k);
        self.lemma_slot_addr_injective(j as int, k as int);
    }

    /// The slot at an address is unique, so a property holds of some slot at
    /// `addr` exactly when it holds of slot `i`.
    proof fn lemma_unique_slot(&self, addr: int, i: int)
        requires
            self.wf(),
            self.is_slot(addr, i),
        ensures
            forall|j: int| self.is_slot(addr, j) ==> j == i,
            (exists|j: int| self.is_slot(addr, j) && self.is_live(j)) == self.is_live(i),
            (exists|j: int| self.is_slot(addr, j) && self.is_live(j) && self.counts()[j] < usize::MAX)
                == (self.is_live(i) && self.counts()[i] < usize::MAX),
    {
        assert forall|j: int| self.is_slot(addr, j) implies j == i by {
            if j != i {
                self.lemma_slot_addr_injective(i, j);
            }
        }
        if self.is_live(i) {
            assert(self.is_slot(addr, i) && self.is_live(i));
        }
        if self.is_live(i) && self.counts()[i] < usize::MAX {
            assert(self.is_slot(addr, i) && self.is_live(i) && self.counts()[i] < usize::MAX);
        }
    }

    /// Every slot address lies inside the heap's region.
    pub proof fn lemma_slot_in_range(&self, i: int)
        requires
            self.wf(),
            0 <= i < self.spec_capacity(),
        ensures
            self.spec_in_range(self.slot_addr(i)),
            self.slot_addr(i) + self.spec_stride() <= self.spec_end(),
    {
        let s = self.spec_stride();
        let c = self.spec_capacity() as int;
        assert(s > 0);
        assert(0 <= i * s && (i + 1) * s <= c * s) by (nonlinear_arith)
            requires
                s > 0,
                0 <= i < c,
        ;
        assert((i + 1) * s == i * s + s) by (nonlinear_arith);
    }

    /// Finds the slot whose address is `addr`.
    fn slot_index(&self, addr: usize) -> (r: Option<usize>)
        requires
            self.wf(),
        ensures
            match r {
                Some(i) => self.is_slot(addr as int, i as int),
                None => forall|i: int| !self.is_slot(addr as int, i),
            },
    {
        proof {
            self.lemma_wf_facts();
            self.lemma_counts();
        }
        if addr < self.base {
            proof {
                assert forall|i: int| !self.is_slot(addr as int, i) by {
                    if 0 <= i < self.spec_capacity() {
                        self.lemma_slot_in_range(i);
                    }
                }
            }
            return None;
        }
        let off = addr - self.base;
        let q = off / self.stride;
        let rem = off % self.stride;
        let ghost s = self.stride as int;
        let ghost o = off as int;
        proof {
            assert(o == q * s + rem) by (nonlinear_arith)
                requires
                    s > 0,
                    q == o / s,
                    rem == o % s,
            ;
        }
        if rem == 0 && q < self.values.len() {
            return Some(q);
        }
        proof {
            assert forall|i: int| !self.is_slot(addr as int, i) by {
                if self.is_slot(addr as int, i) {
                    assert(o == i * s);
                    assert(0 <= rem < s) by (nonlinear_arith)
                        requires
                            s > 0,
                            rem == o % s,
                    ;
                    assert(i == q && rem == 0) by (nonlinear_arith)
                        requires
                            s > 0,
                            o == i * s,
                            o == q * s + rem,
                            0 <= rem < s,
                            0 <= i,
                    ;
                }
            }
        }
        None
    }

    /// Whether `addr` falls inside this heap's region.
    pub fn in_range(&self, addr: usize) -> (r: bool)
        requires
            self.wf(),
        ensures
            r == self.spec_in_range(addr as int),
    {
        let end = self.end();
        self.base <= addr && addr < end
    }

    /// Whether a further `alloc_for` would find a free slot.
    pub fn has_free_slot(&self) -> (r: bool)
        requires
            self.wf(),
        ensures
            r == (first_free(self.counts()) is Some),
    {
        proof {
            lemma_first_free(self.counts());
            self.lemma_wf_facts();
            self.lemma_counts();
        }
        let mut i: usize = 0;
        while i < self.refs.len()
            invariant
                self.wf(),
                i <= self.refs@.len(),
                self.refs@.len() == self.spec_capacity(),
                forall|j: int| 0 <= j < i ==> self.counts()[j] != 0,
            decreases self.refs@.len() - i,
        {
            if self.refs[i] == 0 {
                proof {
                    lemma_first_free(self.counts());
                    self.lemma_counts();
                }
                assert(self.counts()[i as int] == 0);
                return true;
            }
            i = i + 1;
        }
        false
    }

    /// Stores `value` in the lowest free slot with a reference count of one
    /// and returns the handle of that slot. Fails, leaving the heap as it
    /// was, when every slot is live.
    pub fn alloc_for(&mut self, value: T) -> (r: Result<Handle, HeapError>)
        requires
            old(self).wf(),
        ensures
            final(self).wf(),
            final(self).spec_base() == old(self).spec_base(),
            final(self).spec_stride() == old(self).spec_stride(),
            final(self).spec_capacity() == old(self).spec_capacity(),
            final(self).counts() == after_alloc(old(self).counts()),
            match first_free(old(self).counts()) {
                Some(i) => {
                    &&& r is Ok && r->Ok_0.spec_addr() == old(self).slot_addr(i)
                    &&& final(self).counts() == old(self).counts().update(i, 1)
                    &&& final(self).contents() == old(self).contents().update(i, Some(value))
                },
                None => {
                    &&& r == Err::<Handle, HeapError>(HeapError::Full)
                    &&& final(self).counts() == old(self).counts()
                    &&& final(self).contents() == old(self).contents()
                },
            },
    {
        proof {
            lemma_first_free(old(self).counts());
            old(self).lemma_wf_facts();
            old(self).lemma_counts();
        }
        let mut i: usize = 0;
        while i < self.refs.len()
            invariant
                *self == *old(self),
                self.wf(),
                i <= self.refs@.len(),
                self.refs@.len() == self.spec_capacity(),
                forall|j: int| 0 <= j < i ==> self.counts()[j] != 0,
            decreases self.refs@.len() - i,
        {
            if self.refs[i] == 0 {
                proof {
                    lemma_first_free(self.counts());
                    self.lemma_counts();
                    self.lemma_slot_in_range(i as int);
                    assert(self.counts()[i as int] == 0);
                    assert(first_free(self.counts()) == Some(i as int));
                }
                let addr = self.base + i * self.stride;
                self.refs.set(i, 1);
                self.values.set(i, Some(value));
                assert(self.counts() =~= old(self).counts().update(i as int, 1));
                return Ok(Handle { addr });
            }
            i = i + 1;
        }
        Err(HeapError::Full)
    }

    /// Counts one more reference to the live slot at `addr`. Returns false,
    /// changing nothing, when `addr` names no live slot or the count is at
    /// its largest value.
    pub fn retain(&mut self, addr: usize) -> (r: bool)
        requires
            old(self).wf(),
        ensures
            final(self).wf(),
            final(self).spec_base() == old(self).spec_base(),
            final(self).spec_stride() == old(self).spec_stride(),
            final(self).spec_capacity() == old(self).spec_capacity(),
            final(self).contents() == old(self).contents(),
            r == exists|i: int| old(self).is_slot(addr as int, i) && old(self).is_live(i)
                && old(self).counts()[i] < usize::MAX,
            r ==> forall|i: int| old(self).is_slot(addr as int, i) ==> final(self).counts()
                == old(self).counts().update(i, old(self).counts()[i] + 1),
            !r ==> final(self).counts() == old(self).counts(),
    {
        proof {
            old(self).lemma_wf_facts();
            old(self).lemma_counts();
        }
        match self.slot_index(addr) {
            Some(i) => {
                proof {
                    old(self).lemma_unique_slot(addr as int, i as int);
                }
                assert(old(self).counts()[i as int] == self.refs@[i as int]);
                if self.refs[i] == 0 || self.refs[i] == usize::MAX {
                    return false;
                }
                let c = self.refs[i] + 1;
                self.refs.set(i, c);
                proof {
                    assert(self.counts() =~= old(self).counts().update(i as int, old(self).counts()[i as int] + 1));
                }
                true
            },
            None => false,
        }
    }

    /// Drops one reference to the live slot at `addr`. When that was the
    /// last one the slot becomes free and its resource is handed back.
    /// An address that names no live slot changes nothing.
    pub fn dealloc(&mut self, addr: usize) -> (r: Release<T>)
        requires
            old(self).wf(),
        ensures
            final(self).wf(),
            final(self).spec_base() == old(self).spec_base(),
            final(self).spec_stride() == old(self).spec_stride(),
            final(self).spec_capacity() == old(self).spec_capacity(),
            (r is NotLive) == !exists|i: int| old(self).is_slot(addr as int, i) && old(self).is_live(i),
            r is NotLive ==> final(self).counts() == old(self).counts() && final(self).contents()
                == old(self).contents(),
            forall|i: int| old(self).is_slot(addr as int, i) && old(self).is_live(i) ==> {
                &&& final(self).counts() == after_releases(old(self).counts(), i, 1)
                &&& final(self).counts() == old(self).counts().update(i, (old(self).counts()[i] - 1) as nat)
                &&& old(self).counts()[i] == 1 ==> r == Release::Freed(old(self).contents()[i]->Some_0)
                    && final(self).contents() == old(self).contents().update(i, None)
                &&& old(self).counts()[i] > 1 ==> r is Retained && final(self).contents()
                    == old(self).contents()
            },
    {
        proof {
            old(self).lemma_wf_facts();
            old(self).lemma_counts();
        }
        match self.slot_index(addr) {
            Some(i) => {
                proof {
                    old(self).lemma_unique_slot(addr as int, i as int);
                }
                let c = self.refs[i];
                assert(old(self).is_slot(addr as int, i as int));
                assert(old(self).counts()[i as int] == c);
                if c == 0 {
                    return Release::NotLive;
                }
                self.refs.set(i, c - 1);
                assert(self.counts() =~= old(self).counts().update(i as int, (c - 1) as nat));
                assert(after_releases(old(self).counts(), i as int, 0) == old(self).counts());
                assert(after_releases(old(self).counts(), i as int, 1) == self.counts());
                if c == 1 {
                    let mut taken: Option<T> = None;
                    self.values.set_and_swap(i, &mut taken);
                    assert(self.contents() =~= old(self).contents().update(i as int, None));
                    match taken {
                        Some(v) => Release::Freed(v),
                        None => Release::NotLive,
                    }
                } else {
                    Release::Retained
                }
            },
            None => Release::NotLive,
        }
    }

    /// The resource held by the live slot at `addr`.
    pub fn get(&self, addr: usize) -> (r: Option<&T>)
        requires
            self.wf(),
        ensures
            match r {
                Some(v) => exists|i: int| self.is_slot(addr as int, i) && self.is_live(i)
                    && self.contents()[i] == Some(*v),
                None => !exists|i: int| self.is_slot(addr as int, i) && self.is_live(i),
            },
    {
        proof {
            self.lemma_wf_facts();
            self.lemma_counts();
        }
        match self.slot_index(addr) {
            Some(i) => {
                proof {
                    self.lemma_unique_slot(addr as int, i as int);
                }
                assert(self.is_slot(addr as int, i as int));
                assert(self.counts()[i as int] == self.refs@[i as int]);
                assert(self.refs@[i as int] == 0 <==> self.values@[i as int] is None);
                match &self.values[i] {
                    Some(v) => Some(v),
                    None => None,
                }
            },
            None => None,
        }
    }

    /// A mutable borrow of the resource held by the live slot at `addr`,
    /// for changing it in place; the reference count stays.
    pub fn get_mut(&mut self, addr: usize) -> (r: Option<&mut T>)
        requires
            old(self).wf(),
        ensures
            (r is None) == !exists|i: int| old(self).is_slot(addr as int, i) && old(self).is_live(i),
            r is None ==> *final(self) == *old(self),
            forall|i: int| old(self).is_slot(addr as int, i) && old(self).is_live(i) ==> {
                &&& r is Some
                &&& *r->Some_0 == old(self).contents()[i]->Some_0
                &&& final(self).wf()
                &&& final(self).spec_base() == old(self).spec_base()
                &&& final(self).spec_stride() == old(self).spec_stride()
                &&& final(self).spec_capacity() == old(self).spec_capacity()
                &&& final(self).counts() == old(self).counts()
                &&& final(self).contents() == old(self).contents().update(i, Some(*final(r->Some_0)))
            },
    {
        proof {
            old(self).lemma_wf_facts();
            old(self).lemma_counts();
        }
        match self.slot_index(addr) {
            Some(i) => {
                proof {
                    old(self).lemma_unique_slot(addr as int, i as int);
                }
                assert(old(self).is_slot(addr as int, i as int));
                assert(old(self).counts()[i as int] == self.refs@[i as int]);
                assert(self.refs@[i as int] == 0 <==> self.values@[i as int] is None);
                if self.refs[i] == 0 {
                    return None;
                }
                match &mut self.values[i] {
                    Some(v) => Some(v),
                    None => None,
                }
            },
            None => None,
        }
    }
}

} // verus!
