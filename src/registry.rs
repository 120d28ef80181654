use vstd::prelude::*;
use crate::heap::ResourceHeap;

verus! {

/// The kinds of native resource that live in a heap of their own.
#[derive(Clone, Copy, Debug, PartialEq, Eq, Structural)]
pub enum ResourceKind {
    Camera,
    Texture,
    Sound,
    Music,
    RenderTexture,
    Font,
}

impl ResourceKind {
    pub open spec fn spec_default_capacity(self) -> usize {
        match self {
            ResourceKind::Camera => 100,
            ResourceKind::Texture => 1000,
            ResourceKind::Sound => 1000,
            ResourceKind::Music => 1000,
            ResourceKind::RenderTexture => 1000,
            ResourceKind::Font => 10,
        }
    }

    /// The number of slots of this kind's heap when nothing overrides it.
    pub fn default_capacity(self) -> (r: usize)
        ensures
            r == self.spec_default_capacity(),
    {
        match self {
            ResourceKind::Camera => 100,
            ResourceKind::Texture => 1000,
            ResourceKind::Sound => 1000,
            ResourceKind::Music => 1000,
            ResourceKind::RenderTexture => 1000,
            ResourceKind::Font => 10,
        }
    }

    /// The environment variable that overrides this kind's heap capacity.
    pub fn capacity_variable(self) -> (r: &'static str)
        ensures
            r@ == match self {
                ResourceKind::Camera => "ROC_RAY_MAX_CAMERAS_HEAP_SIZE"@,
                ResourceKind::Texture => "ROC_RAY_MAX_TEXTURES_HEAP_SIZE"@,
                ResourceKind::Sound => "ROC_RAY_MAX_SOUNDS_HEAP_SIZE"@,
                ResourceKind::Music => "ROC_RAY_MAX_MUSIC_HEAP_SIZE"@,
                ResourceKind::RenderTexture => "ROC_RAY_MAX_RENDER_TEXTURE_HEAP_SIZE"@,
                ResourceKind::Font => "ROC_RAY_MAX_FONT_HEAP_SIZE"@,
            },
    {
        match self {
            ResourceKind::Camera => "ROC_RAY_MAX_CAMERAS_HEAP_SIZE",
            ResourceKind::Texture => "ROC_RAY_MAX_TEXTURES_HEAP_SIZE",
            ResourceKind::Sound => "ROC_RAY_MAX_SOUNDS_HEAP_SIZE",
            ResourceKind::Music => "ROC_RAY_MAX_MUSIC_HEAP_SIZE",
            ResourceKind::RenderTexture => "ROC_RAY_MAX_RENDER_TEXTURE_HEAP_SIZE",
            ResourceKind::Font => "ROC_RAY_MAX_FONT_HEAP_SIZE",
        }
    }
}

pub open spec fn is_digit(c: char) -> bool {
    '0' <= c && c <= '9'
}

/// The value of a string of decimal digits.
pub open spec fn digits_value(s: Seq<char>) -> nat
    decreases s.len(),
{
    if s.len() == 0 {
        0
    } else {
        digits_value(s.drop_last()) * 10 + (s.last() as nat - '0' as nat) as nat
    }
}

/// The digits of an unsigned decimal number: a leading `+` is allowed.
pub open spec fn number_digits(s: Seq<char>) -> Seq<char> {
    if s.len() > 0 && s[0] == '+' {
        s.drop_first()
    } else {
        s
    }
}

/// The number that `s` writes in decimal, when it is one that fits in a `usize`.
pub open spec fn decimal_usize(s: Seq<char>) -> Option<usize> {
    let d = number_digits(s);
    if d.len() > 0 && (forall|i: int| 0 <= i < d.len() ==> is_digit(#[trigger] d[i]))
        && digits_value(d) <= usize::MAX {
        Some(digits_value(d) as usize)
    } else {
        None
    }
}

proof fn lemma_digits_value_grows(s: Seq<char>, i: int)
    requires
        0 <= i <= s.len(),
        forall|k: int| 0 <= k < s.len() ==> is_digit(#[trigger] s[k]),
    ensures
        digits_value(s.subrange(0, i)) <= digits_value(s),
    decreases s.len(),
{
    if i < s.len() {
        let t = s.drop_last();
        assert forall|k: int| 0 <= k < t.len() implies is_digit(#[trigger] t[k]) by {
            assert(t[k] == s[k]);
        }
        lemma_digits_value_grows(t, i);
        assert(t.subrange(0, i) =~= s.subrange(0, i));
    } else {
        assert(s.subrange(0, i) =~= s);
    }
}

/// Reads an unsigned decimal number, as a capacity setting is written.
pub fn parse_capacity(s: &str) -> (r: Option<usize>)
    ensures
        r == decimal_usize(s@),
{
    let n = s.unicode_len();
    let mut start: usize = 0;
    if n > 0 && s.get_char(0) == '+' {
        start = 1;
    }
    let ghost d = number_digits(s@);
    assert(d =~= s@.subrange(start as int, n as int));
    if start == n {
        return None;
    }
    let mut acc: usize = 0;
    let mut i: usize = start;
    while i < n
        invariant
            start <= i <= n,
            n == s@.len(),
            d == s@.subrange(start as int, n as int),
            d == number_digits(s@),
            forall|k: int| 0 <= k < i - start ==> is_digit(#[trigger] d[k]),
            acc == digits_value(d.subrange(0, i - start)),
        decreases n - i,
    {
        let c = s.get_char(i);
        if !('0' <= c && c <= '9') {
            assert(d[i - start] == c);
            assert(!is_digit(d[i - start]));
            assert(!(forall|k: int| 0 <= k < d.len() ==> is_digit(#[trigger] d[k])));
            assert(decimal_usize(s@) is None);
            return None;
        }
        let digit = (c as u32 - '0' as u32) as usize;
        let ghost prefix = d.subrange(0, i + 1 - start);
        proof {
            assert(prefix.drop_last() =~= d.subrange(0, i - start));
            assert(prefix.last() == c);
        }
        let next = match acc.checked_mul(10) {
            Some(m) => m.checked_add(digit),
            None => None,
        };
        match next {
            Some(v) => {
                acc = v;
            },
            None => {
                proof {
                    assert(digits_value(prefix) == acc * 10 + digit);
                    assert(digits_value(prefix) > usize::MAX);
                    if forall|k: int| 0 <= k < d.len() ==> is_digit(#[trigger] d[k]) {
                        lemma_digits_value_grows(d, i + 1 - start);
                        assert(digits_value(d) > usize::MAX);
                    }
                    assert(decimal_usize(s@) is None);
                }
                return None;
            },
        }
        i = i + 1;
    }
    assert(d.subrange(0, n - start) =~= d);
    Some(acc)
}

/// The capacity of a heap of `kind`: the value of its setting when that reads
/// as a number, and the kind's default otherwise.
pub fn capacity_setting(kind: ResourceKind, setting: Option<&str>) -> (r: usize)
    ensures
        r == match setting {
            Some(s) => match decimal_usize(s@) {
                Some(v) => v,
                None => kind.spec_default_capacity(),
            },
            None => kind.spec_default_capacity(),
        },
{
    match setting {
        Some(s) => match parse_capacity(s) {
            Some(v) => v,
            None => kind.default_capacity(),
        },
        None => kind.default_capacity(),
    }
}


/// The address region `[start, end)` that the heap of `kind` occupies.
#[derive(Clone, Copy, Debug, PartialEq, Eq, Structural)]
pub struct ArenaBounds {
    pub kind: ResourceKind,
    pub start: usize,
    pub end: usize,
}

impl ArenaBounds {
    pub open spec fn contains(self, addr: int) -> bool {
        self.start <= addr < self.end
    }

    pub open spec fn overlaps(self, other: ArenaBounds) -> bool {
        self.start < other.end && other.start < self.end
    }
}

/// Where a freed address goes.
#[derive(Clone, Copy, Debug, PartialEq, Eq, Structural)]
pub enum Route {
    /// The heap of this kind owns the address.
    Heap(ResourceKind),
    /// No heap owns it: it belongs to the general-purpose allocator.
    General,
}

/// Why a region could not be registered.
#[derive(Clone, Copy, Debug, PartialEq, Eq, Structural)]
pub enum RegisterError {
    /// The region ends before it starts.
    Inverted,
    /// A heap of the same kind is registered already.
    KindTaken,
    /// The region shares addresses with a registered one.
    Overlap,
}

/// The first region, in registration order, that holds `addr`.
pub open spec fn route_of(entries: Seq<ArenaBounds>, addr: int) -> Route
    decreases entries.len(),
{
    if entries.len() == 0 {
        Route::General
    } else if entries[0].contains(addr) {
        Route::Heap(entries[0].kind)
    } else {
        route_of(entries.drop_first(), addr)
    }
}

/// The registered heap regions, probed in a fixed order to find the owner
/// of an address handed back by the runtime.
pub struct DeallocRouter {
    entries: Vec<ArenaBounds>,
}

impl DeallocRouter {
    pub closed spec fn view(&self) -> Seq<ArenaBounds> {
        self.entries@
    }

    /// Regions are well formed and pairwise disjoint, and no kind is registered twice.
    pub open spec fn wf(&self) -> bool {
        &&& forall|i: int| 0 <= i < self@.len() ==> #[trigger] self@[i].start <= self@[i].end
        &&& forall|i: int, j: int|
            0 <= i < self@.len() && 0 <= j < self@.len() && i != j ==> !(#[trigger] self@[i]).overlaps(
                #[trigger] self@[j],
            ) && self@[i].kind != self@[j].kind
    }

    pub fn new() -> (r: DeallocRouter)
        ensures
            r@ == Seq::<ArenaBounds>::empty(),
            r.wf(),
    {
        DeallocRouter { entries: Vec::new() }
    }

    /// Adds the region of the heap of `kind` after those registered before.
    pub fn register(&mut self, kind: ResourceKind, start: usize, end: usize) -> (r: Result<(), RegisterError>)
        requires
            old(self).wf(),
        ensures
            final(self).wf(),
            match r {
                Ok(()) => final(self)@ == old(self)@.push(ArenaBounds { kind, start, end }),
                Err(e) => final(self)@ == old(self)@,
            },
            r == if start > end {
                Err(RegisterError::Inverted)
            } else if exists|i: int| 0 <= i < old(self)@.len() && (#[trigger] old(self)@[i]).kind == kind {
                Err(RegisterError::KindTaken)
            } else if exists|i: int|
                0 <= i < old(self)@.len() && (#[trigger] old(self)@[i]).overlaps(ArenaBounds { kind, start, end }) {
                Err(RegisterError::Overlap)
            } else {
                Ok(())
            },
    {
        if start > end {
            return Err(RegisterError::Inverted);
        }
        let b = ArenaBounds { kind, start, end };
        let mut i: usize = 0;
        while i < self.entries.len()
            invariant
                *self == *old(self),
                self.wf(),
                start <= end,
                i <= self@.len(),
                forall|j: int| 0 <= j < i ==> (#[trigger] self@[j]).kind != kind,
            decreases self@.len() - i,
        {
            if self.entries[i].kind == kind {
                assert(0 <= i < old(self)@.len() && old(self)@[i as int].kind == kind);

                return Err(RegisterError::KindTaken);
            }
            i = i + 1;
        }
        let mut i: usize = 0;
        while i < self.entries.len()
            invariant
                *self == *old(self),
                self.wf(),
                b == (ArenaBounds { kind, start, end }),
                start <= end,
                i <= self@.len(),
                forall|j: int| 0 <= j < self@.len() ==> (#[trigger] self@[j]).kind != kind,
                forall|j: int| 0 <= j < i ==> !(#[trigger] self@[j]).overlaps(b),
            decreases self@.len() - i,
        {
            let e = self.entries[i];
            if e.start < end && start < e.end {
                assert(old(self)@[i as int].overlaps(b));
                return Err(RegisterError::Overlap);
            }
            i = i + 1;
        }
        self.entries.push(b);
        proof {
            assert forall|i: int, j: int|
                0 <= i < self@.len() && 0 <= j < self@.len() && i != j implies !(#[trigger] self@[i]).overlaps(
                #[trigger] self@[j],
            ) && self@[i].kind != self@[j].kind by {
                if i < old(self)@.len() && j < old(self)@.len() {
                    assert(self@[i] == old(self)@[i] && self@[j] == old(self)@[j]);
                }
            }
        }
        Ok(())
    }

    /// Adds the region of `heap` under `kind`.
    pub fn register_heap<T>(&mut self, kind: ResourceKind, heap: &ResourceHeap<T>) -> (r: Result<(), RegisterError>)
        requires
            old(self).wf(),
            heap.wf(),
        ensures
            final(self).wf(),
            match r {
                Ok(()) => final(self)@ == old(self)@.push(
                    ArenaBounds { kind, start: heap.spec_base() as usize, end: heap.spec_end() as usize },
                ),
                Err(e) => final(self)@ == old(self)@,
            },
            r == if exists|i: int| 0 <= i < old(self)@.len() && (#[trigger] old(self)@[i]).kind == kind {
                Err(RegisterError::KindTaken)
            } else if exists|i: int|
                0 <= i < old(self)@.len() && (#[trigger] old(self)@[i]).overlaps(
                    ArenaBounds { kind, start: heap.spec_base() as usize, end: heap.spec_end() as usize },
                ) {
                Err(RegisterError::Overlap)
            } else {
                Ok(())
            },
    {
        proof {
            heap.lemma_wf_facts();
            assert(heap.spec_capacity() * heap.spec_stride() >= 0) by (nonlinear_arith)
                requires
                    heap.spec_stride() > 0,
            ;
        }
        let start = heap.base();
        let end = heap.end();
        self.register(kind, start, end)
    }

    /// The owner of `addr`: the first registered region that holds it, or the
    /// general-purpose allocator when none does.
    pub fn route(&self, addr: usize) -> (r: Route)
        ensures
            r == route_of(self@, addr as int),
    {
        assert(self@.subrange(0, self@.len() as int) =~= self@);
        let mut i: usize = 0;
        while i < self.entries.len()
            invariant
                i <= self@.len(),
                route_of(self@, addr as int) == route_of(self@.subrange(i as int, self@.len() as int), addr as int),
            decreases self@.len() - i,
        {
            let e = self.entries[i];
            let ghost rest = self@.subrange(i as int, self@.len() as int);
            assert(rest[0] == e);
            assert(rest.drop_first() =~= self@.subrange(i + 1, self@.len() as int));
            if e.start <= addr && addr < e.end {
                return Route::Heap(e.kind);
            }
            i = i + 1;
        }
        Route::General
    }
}

/// In a router whose regions are disjoint, an address inside the region at
/// position `k` is routed to that region's kind, and no other region holds it.
pub proof fn lemma_route_unique(entries: Seq<ArenaBounds>, k: int, addr: int)
    requires
        0 <= k < entries.len(),
        entries[k].contains(addr),
        forall|i: int, j: int|
            0 <= i < entries.len() && 0 <= j < entries.len() && i != j ==> !(#[trigger] entries[i]).overlaps(
                #[trigger] entries[j],
            ),
    ensures
        route_of(entries, addr) == Route::Heap(entries[k].kind),
        forall|j: int| 0 <= j < entries.len() && j != k ==> !(#[trigger] entries[j]).contains(addr),
    decreases entries.len(),
{
    assert forall|j: int| 0 <= j < entries.len() && j != k implies !(#[trigger] entries[j]).contains(addr) by {
        assert(!entries[j].overlaps(entries[k]));
    }
    if k > 0 {
        let rest = entries.drop_first();
        assert(!entries[0].contains(addr));
        assert forall|i: int, j: int|
            0 <= i < rest.len() && 0 <= j < rest.len() && i != j implies !(#[trigger] rest[i]).overlaps(
            #[trigger] rest[j],
        ) by {
            assert(rest[i] == entries[i + 1] && rest[j] == entries[j + 1]);
        }
        lemma_route_unique(rest, k - 1, addr);
    }
}


/// The address of every slot of a heap registered in a router with disjoint
/// regions is in that heap's range, is routed to that heap's kind, and is
/// held by no other registered region.
pub proof fn lemma_slot_routes_to_its_heap<T>(entries: Seq<ArenaBounds>, k: int, heap: ResourceHeap<T>, i: int)
    requires
        heap.wf(),
        0 <= i < heap.spec_capacity(),
        0 <= k < entries.len(),
        entries[k].start == heap.spec_base(),
        entries[k].end == heap.spec_end(),
        forall|a: int, b: int|
            0 <= a < entries.len() && 0 <= b < entries.len() && a != b ==> !(#[trigger] entries[a]).overlaps(
                #[trigger] entries[b],
            ),
    ensures
        heap.spec_in_range(heap.slot_addr(i)),
        route_of(entries, heap.slot_addr(i)) == Route::Heap(entries[k].kind),
        forall|j: int| 0 <= j < entries.len() && j != k ==> !(#[trigger] entries[j]).contains(heap.slot_addr(i)),
{
    heap.lemma_slot_in_range(i);
    lemma_route_unique(entries, k, heap.slot_addr(i));
}

} // verus!
