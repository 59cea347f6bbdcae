//! A per-source cache of decoded sample runs ("segments"), grouped in piles
//! and bounded in bytes by least-recently-used eviction.
use vstd::prelude::*;

verus! {

/// The default bound on the bytes held by evictable segments: 32 MiB.
pub const DEFAULT_CACHE_LIMIT_BYTES: u64 = 32 * 1024 * 1024;

/// Tells segment stores apart, so that a pile is only ever used with the
/// store that allocated it.
#[derive(Clone, Copy, PartialEq, Eq, Structural, Debug)]
pub struct StoreID(pub u32);

impl StoreID {
    pub fn new(raw: u32) -> (r: StoreID)
        ensures
            r.0 == raw,
    {
        StoreID(raw)
    }
}

/// The pile of one source inside one store: a dense index and the store's id.
#[derive(Clone, Copy, PartialEq, Eq, Structural, Debug)]
pub struct PileID(pub usize, pub StoreID);

/// The interleaved samples of a segment. `Cache` segments are evictable;
/// `Mem` segments are permanent and never counted against the cache bound.
pub enum SegmentData<S> {
    Cache(Vec<S>),
    Mem(Vec<S>),
}

impl<S> SegmentData<S> {
    pub open spec fn samples(&self) -> Seq<S> {
        match self {
            SegmentData::Cache(c) => c@,
            SegmentData::Mem(m) => m@,
        }
    }

    pub open spec fn is_cache(&self) -> bool {
        self is Cache
    }

    pub fn len(&self) -> (r: usize)
        ensures
            r == self.samples().len(),
    {
        match self {
            SegmentData::Cache(c) => c.len(),
            SegmentData::Mem(m) => m.len(),
        }
    }

    pub fn fetch(&self) -> (r: &Vec<S>)
        ensures
            r@ == self.samples(),
    {
        match self {
            SegmentData::Cache(c) => c,
            SegmentData::Mem(m) => m,
        }
    }
}

/// A run of interleaved frames that starts at `frame_idx`.
pub struct Segment<S> {
    pub frame_idx: u64,
    pub data: SegmentData<S>,
    pub recency_idx: u64,
    pub channels: u8,
}

impl<S> Segment<S> {
    pub open spec fn frame_count(&self) -> nat {
        (self.data.samples().len() / (self.channels as nat)) as nat
    }

    /// One past the last frame covered.
    pub open spec fn end(&self) -> int {
        self.frame_idx + self.frame_count()
    }

    pub open spec fn covers(&self, f: int) -> bool {
        self.frame_idx <= f < self.end()
    }

    pub open spec fn well_formed(&self) -> bool {
        &&& self.channels > 0
        &&& self.data.samples().len() % (self.channels as nat) == 0
        &&& self.frame_count() >= 1
        &&& self.end() <= u64::MAX
    }

    /// The bytes this segment counts against the cache bound.
    pub open spec fn cache_bytes(&self, sample_bytes: nat) -> nat {
        if self.data.is_cache() {
            self.data.samples().len() * sample_bytes
        } else {
            0
        }
    }

    /// The interleaved samples of frame `f`.
    pub open spec fn frame_at(&self, f: int) -> Seq<S> {
        let lo = (f - self.frame_idx) * self.channels;
        self.data.samples().subrange(lo, lo + self.channels)
    }

    pub fn frames(&self) -> (r: u64)
        requires
            self.channels > 0,
        ensures
            r == self.frame_count(),
    {
        self.data.len() as u64 / self.channels as u64
    }
}

/// Segments of a pile are well formed, sorted by start and pairwise disjoint.
pub open spec fn pile_wf<S>(p: Seq<Segment<S>>) -> bool {
    &&& forall|i: int| 0 <= i < p.len() ==> (#[trigger] p[i]).well_formed()
    &&& forall|i: int, j: int|
        #![trigger p[i], p[j]]
        0 <= i < j < p.len() ==> p[i].end() <= p[j].frame_idx
}

pub open spec fn pile_bytes<S>(p: Seq<Segment<S>>, sb: nat) -> nat
    decreases p.len(),
{
    if p.len() == 0 {
        0
    } else {
        pile_bytes(p.drop_last(), sb) + p.last().cache_bytes(sb)
    }
}

pub open spec fn piles_bytes<S>(ps: Seq<Vec<Segment<S>>>, sb: nat) -> nat
    decreases ps.len(),
{
    if ps.len() == 0 {
        0
    } else {
        piles_bytes(ps.drop_last(), sb) + pile_bytes(ps.last()@, sb)
    }
}

proof fn lemma_pile_bytes_update<S>(p: Seq<Segment<S>>, i: int, x: Segment<S>, sb: nat)
    requires
        0 <= i < p.len(),
    ensures
        pile_bytes(p.update(i, x), sb) + p[i].cache_bytes(sb) == pile_bytes(p, sb)
            + x.cache_bytes(sb),
    decreases p.len(),
{
    if i < p.len() - 1 {
        assert(p.update(i, x).drop_last() =~= p.drop_last().update(i, x));
        lemma_pile_bytes_update(p.drop_last(), i, x, sb);
    } else {
        assert(p.update(i, x).drop_last() =~= p.drop_last());
    }
}

proof fn lemma_pile_bytes_insert<S>(p: Seq<Segment<S>>, i: int, x: Segment<S>, sb: nat)
    requires
        0 <= i <= p.len(),
    ensures
        pile_bytes(p.insert(i, x), sb) == pile_bytes(p, sb) + x.cache_bytes(sb),
    decreases p.len(),
{
    if i < p.len() {
        assert(p.insert(i, x).drop_last() =~= p.drop_last().insert(i, x));
        lemma_pile_bytes_insert(p.drop_last(), i, x, sb);
    } else {
        assert(p.insert(i, x).drop_last() =~= p);
    }
}

proof fn lemma_pile_bytes_remove<S>(p: Seq<Segment<S>>, i: int, sb: nat)
    requires
        0 <= i < p.len(),
    ensures
        pile_bytes(p.remove(i), sb) + p[i].cache_bytes(sb) == pile_bytes(p, sb),
    decreases p.len(),
{
    if i < p.len() - 1 {
        assert(p.remove(i).drop_last() =~= p.drop_last().remove(i));
        lemma_pile_bytes_remove(p.drop_last(), i, sb);
    } else {
        assert(p.remove(i) =~= p.drop_last());
    }
}

proof fn lemma_piles_bytes_update<S>(ps: Seq<Vec<Segment<S>>>, k: int, v: Vec<Segment<S>>, sb: nat)
    requires
        0 <= k < ps.len(),
    ensures
        piles_bytes(ps.update(k, v), sb) + pile_bytes(ps[k]@, sb) == piles_bytes(ps, sb)
            + pile_bytes(v@, sb),
    decreases ps.len(),
{
    if k < ps.len() - 1 {
        assert(ps.update(k, v).drop_last() =~= ps.drop_last().update(k, v));
        lemma_piles_bytes_update(ps.drop_last(), k, v, sb);
    } else {
        assert(ps.update(k, v).drop_last() =~= ps.drop_last());
    }
}

proof fn lemma_pile_within_piles<S>(ps: Seq<Vec<Segment<S>>>, k: int, sb: nat)
    requires
        0 <= k < ps.len(),
    ensures
        pile_bytes(ps[k]@, sb) <= piles_bytes(ps, sb),
    decreases ps.len(),
{
    if k < ps.len() - 1 {
        lemma_pile_within_piles(ps.drop_last(), k, sb);
    }
}

/// Without evictable segments a pile counts no bytes.
proof fn lemma_pile_no_cache<S>(p: Seq<Segment<S>>, sb: nat)
    requires
        forall|i: int| 0 <= i < p.len() ==> !(#[trigger] p[i]).data.is_cache(),
    ensures
        pile_bytes(p, sb) == 0,
    decreases p.len(),
{
    if p.len() > 0 {
        lemma_pile_no_cache(p.drop_last(), sb);
    }
}

proof fn lemma_piles_no_cache<S>(ps: Seq<Vec<Segment<S>>>, sb: nat)
    requires
        forall|k: int, i: int|
            #![trigger ps[k]@[i]]
            0 <= k < ps.len() && 0 <= i < ps[k]@.len() ==> !ps[k]@[i].data.is_cache(),
    ensures
        piles_bytes(ps, sb) == 0,
    decreases ps.len(),
{
    if ps.len() > 0 {
        let last = ps.last()@;
        assert forall|i: int| 0 <= i < last.len() implies !(#[trigger] last[i]).data.is_cache() by {
            assert(ps[ps.len() - 1]@[i] == last[i]);
        }
        lemma_pile_no_cache(last, sb);
        let init = ps.drop_last();
        assert forall|k: int, i: int|
            #![trigger init[k]@[i]]
            0 <= k < init.len() && 0 <= i < init[k]@.len() implies !init[k]@[i].data.is_cache() by {
            assert(ps[k] == init[k]);
        }
        lemma_piles_no_cache(init, sb);
    }
}

proof fn lemma_piles_zero_width<S>(ps: Seq<Vec<Segment<S>>>)
    ensures
        piles_bytes(ps, 0) == 0,
    decreases ps.len(),
{
    if ps.len() > 0 {
        lemma_pile_zero_width(ps.last()@);
        lemma_piles_zero_width(ps.drop_last());
    }
}

proof fn lemma_pile_zero_width<S>(p: Seq<Segment<S>>)
    ensures
        pile_bytes(p, 0) == 0,
    decreases p.len(),
{
    if p.len() > 0 {
        lemma_pile_zero_width(p.drop_last());
    }
}

proof fn lemma_pile_wf_remove<S>(p: Seq<Segment<S>>, i: int)
    requires
        pile_wf(p),
        0 <= i < p.len(),
    ensures
        pile_wf(p.remove(i)),
{
    let q = p.remove(i);
    assert forall|a: int| 0 <= a < q.len() implies (#[trigger] q[a]).well_formed() by {
        if a < i {
            assert(q[a] == p[a]);
        } else {
            assert(q[a] == p[a + 1]);
        }
    }
    assert forall|a: int, b: int|
        #![trigger q[a], q[b]]
        0 <= a < b < q.len() implies q[a].end() <= q[b].frame_idx by {
        let a2 = if a < i { a } else { a + 1 };
        let b2 = if b < i { b } else { b + 1 };
        assert(q[a] == p[a2]);
        assert(q[b] == p[b2]);
        assert(p[a2].end() <= p[b2].frame_idx);
    }
}

proof fn lemma_pile_wf_insert<S>(p: Seq<Segment<S>>, i: int, x: Segment<S>)
    requires
        pile_wf(p),
        0 <= i <= p.len(),
        x.well_formed(),
        i > 0 ==> p[i - 1].end() <= x.frame_idx,
        i < p.len() ==> x.end() <= p[i].frame_idx,
    ensures
        pile_wf(p.insert(i, x)),
{
    let q = p.insert(i, x);
    assert forall|a: int| 0 <= a < q.len() implies (#[trigger] q[a]).well_formed() by {
        if a < i {
            assert(q[a] == p[a]);
        } else if a > i {
            assert(q[a] == p[a - 1]);
        }
    }
    assert forall|a: int, b: int|
        #![trigger q[a], q[b]]
        0 <= a < b < q.len() implies q[a].end() <= q[b].frame_idx by {
        if b < i {
            assert(q[a] == p[a] && q[b] == p[b]);
        } else if b == i {
            assert(q[a] == p[a]);
            if a < i - 1 {
                assert(p[a].end() <= p[i - 1].frame_idx);
                assert(p[i - 1].frame_idx < p[i - 1].end());
            }
        } else if a > i {
            assert(q[a] == p[a - 1] && q[b] == p[b - 1]);
        } else if a == i {
            assert(q[b] == p[b - 1]);
            if b - 1 > i {
                assert(p[i].end() <= p[b - 1].frame_idx);
                assert(p[i].frame_idx < p[i].end());
            }
        } else {
            assert(q[a] == p[a] && q[b] == p[b - 1]);
        }
    }
}

proof fn lemma_insert_members<T>(s: Seq<T>, i: int, x: T)
    requires
        0 <= i <= s.len(),
    ensures
        forall|j: int|
            0 <= j < s.len() + 1 ==> (#[trigger] s.insert(i, x)[j]) == x || s.contains(s.insert(i, x)[j]),
        forall|e: T| #[trigger] s.contains(e) ==> s.insert(i, x).contains(e),
{
    let t = s.insert(i, x);
    assert forall|j: int| 0 <= j < s.len() + 1 implies (#[trigger] t[j]) == x || s.contains(t[j]) by {
        if j < i {
            assert(t[j] == s[j]);
        } else if j > i {
            assert(t[j] == s[j - 1]);
        }
    }
    assert forall|e: T| #[trigger] s.contains(e) implies t.contains(e) by {
        let idx = choose|idx: int| 0 <= idx < s.len() && s[idx] == e;
        if idx < i {
            assert(t[idx] == e);
        } else {
            assert(t[idx + 1] == e);
        }
    }
}

proof fn lemma_pile_bytes_prefix<S>(p: Seq<Segment<S>>, i: int, sb: nat)
    requires
        0 <= i <= p.len(),
    ensures
        pile_bytes(p.subrange(0, i), sb) <= pile_bytes(p, sb),
    decreases p.len(),
{
    if i < p.len() {
        assert(p.subrange(0, i) =~= p.drop_last().subrange(0, i));
        lemma_pile_bytes_prefix(p.drop_last(), i, sb);
    } else {
        assert(p.subrange(0, i) =~= p);
    }
}

/// Whether some segment of `p` shares a frame with `[lo, hi)`.
pub open spec fn clashes<S>(p: Seq<Segment<S>>, lo: int, hi: int) -> bool {
    exists|i: int| 0 <= i < p.len() && (#[trigger] p[i]).frame_idx < hi && lo < p[i].end()
}

proof fn lemma_removed_absent<S>(p: Seq<Segment<S>>, i: int)
    requires
        pile_wf(p),
        0 <= i < p.len(),
    ensures
        !p.remove(i).contains(p[i]),
{
    if p.remove(i).contains(p[i]) {
        let j = choose|j: int| 0 <= j < p.remove(i).len() && p.remove(i)[j] == p[i];
        let j2 = if j < i { j } else { j + 1 };
        assert(p[j2] == p[i]);
        assert(p[i].well_formed());
        if j2 < i {
            assert(p[j2].end() <= p[i].frame_idx);
        } else {
            assert(p[i].end() <= p[j2].frame_idx);
        }
    }
}

/// A recency index handed out before `next`: below it, unless the counter
/// has reached its end.
pub open spec fn recency_below(r: u64, next: u64) -> bool {
    r < next || next == u64::MAX
}

/// The number of segments of `p` that start at or before `f`.
fn count_starting_by<S>(p: &Vec<Segment<S>>, f: u64) -> (r: usize)
    requires
        pile_wf(p@),
    ensures
        r <= p@.len(),
        forall|i: int| 0 <= i < r ==> (#[trigger] p@[i]).frame_idx <= f,
        forall|i: int| r <= i < p@.len() ==> (#[trigger] p@[i]).frame_idx > f,
{
    let mut lo: usize = 0;
    let mut hi: usize = p.len();
    while lo < hi
        invariant
            lo <= hi <= p@.len(),
            pile_wf(p@),
            forall|i: int| 0 <= i < lo ==> (#[trigger] p@[i]).frame_idx <= f,
            forall|i: int| hi <= i < p@.len() ==> (#[trigger] p@[i]).frame_idx > f,
        decreases hi - lo,
    {
        let mid = lo + (hi - lo) / 2;
        if p[mid].frame_idx <= f {
            assert forall|i: int| 0 <= i <= mid implies (#[trigger] p@[i]).frame_idx <= f by {
                if i < mid {
                    assert(p@[i].end() <= p@[mid as int].frame_idx);
                }
            }
            lo = mid + 1;
        } else {
            assert forall|i: int| mid <= i < p@.len() implies (#[trigger] p@[i]).frame_idx > f by {
                if i > mid {
                    assert(p@[mid as int].end() <= p@[i].frame_idx);
                }
            }
            hi = mid;
        }
    }
    lo
}

/// Decoded segments of any number of piles, with a byte bound on the
/// evictable ones.
pub struct SegmentStore<S> {
    cache_size: u64,
    cache_limit_bytes: u64,
    piles: Vec<Vec<Segment<S>>>,
    store_id: StoreID,
    next_recency: u64,
    sample_bytes: u64,
}

impl<S: Copy> SegmentStore<S> {
    /// Evictable segment `i` of pile `q` is no longer in pile `q` of `after`.
    pub open spec fn evicted_into(&self, after: Self, q: int, i: int) -> bool {
        &&& 0 <= q < self.pile_count()
        &&& 0 <= i < self.pile(q).len()
        &&& self.pile(q)[i].data.is_cache()
        &&& !after.pile(q).contains(self.pile(q)[i])
    }

    /// The bytes held by evictable segments.
    pub closed spec fn cache_bytes(&self) -> nat {
        self.cache_size as nat
    }

    pub closed spec fn cache_limit(&self) -> nat {
        self.cache_limit_bytes as nat
    }

    pub closed spec fn id(&self) -> StoreID {
        self.store_id
    }

    pub closed spec fn pile_count(&self) -> nat {
        self.piles@.len()
    }

    /// The segments of pile `k`, sorted by their first frame.
    pub closed spec fn pile(&self, k: int) -> Seq<Segment<S>> {
        self.piles@[k]@
    }

    /// The size in bytes of one sample.
    pub closed spec fn sample_bytes(&self) -> nat {
        self.sample_bytes as nat
    }

    /// The recency index that the next insert or touch hands out.
    pub closed spec fn next_recency(&self) -> u64 {
        self.next_recency
    }

    /// The bytes a run of `n` samples would count if evictable.
    pub open spec fn bytes_of(&self, n: nat) -> nat {
        n * self.sample_bytes()
    }

    pub closed spec fn wf(&self) -> bool {
        &&& forall|k: int| 0 <= k < self.piles@.len() ==> pile_wf(#[trigger] self.piles@[k]@)
        &&& forall|k: int, i: int|
            #![trigger self.piles@[k]@[i]]
            0 <= k < self.piles@.len() && 0 <= i < self.piles@[k]@.len()
                ==> recency_below(self.piles@[k]@[i].recency_idx, self.next_recency)
        &&& self.cache_size as nat == piles_bytes(self.piles@, self.sample_bytes as nat)
        &&& self.cache_size <= self.cache_limit_bytes
        &&& self.sample_bytes as nat == vstd::layout::size_of::<S>()
    }

    /// A store with the default cache bound.
    pub fn new(store_id: StoreID) -> (r: Self)
        ensures
            r.wf(),
            r.id() == store_id,
            r.pile_count() == 0,
            r.cache_bytes() == 0,
            r.cache_limit() == DEFAULT_CACHE_LIMIT_BYTES,
            r.sample_bytes() == vstd::layout::size_of::<S>(),
    {
        Self::with_limit(store_id, DEFAULT_CACHE_LIMIT_BYTES)
    }

    /// A store whose evictable segments never hold more than `limit_bytes`.
    pub fn with_limit(store_id: StoreID, limit_bytes: u64) -> (r: Self)
        ensures
            r.wf(),
            r.id() == store_id,
            r.pile_count() == 0,
            r.cache_bytes() == 0,
            r.cache_limit() == limit_bytes,
            r.sample_bytes() == vstd::layout::size_of::<S>(),
    {
        let sb = core::mem::size_of::<S>();
        let r = SegmentStore {
            cache_size: 0,
            cache_limit_bytes: limit_bytes,
            piles: Vec::new(),
            store_id,
            next_recency: 0,
            sample_bytes: sb as u64,
        };
        proof {
            assert(r.piles@ =~= Seq::<Vec<Segment<S>>>::empty());
        }
        r
    }

    pub fn cache_size(&self) -> (r: u64)
        ensures
            r == self.cache_bytes(),
    {
        self.cache_size
    }

    pub fn cache_limit_bytes(&self) -> (r: u64)
        ensures
            r == self.cache_limit(),
    {
        self.cache_limit_bytes
    }

    pub fn store_id(&self) -> (r: StoreID)
        ensures
            r == self.id(),
    {
        self.store_id
    }

    /// The size in bytes of one sample.
    pub fn sample_size(&self) -> (r: u64)
        ensures
            r == self.sample_bytes(),
    {
        self.sample_bytes
    }

    /// Same store, same piles allocated, same bound and sample size.
    pub open spec fn keeps_layout_of(&self, other: Self) -> bool {
        &&& self.id() == other.id()
        &&& self.pile_count() == other.pile_count()
        &&& self.cache_limit() == other.cache_limit()
        &&& self.sample_bytes() == other.sample_bytes()
    }

    /// Some segment of pile `k` covers frame `f`.
    pub open spec fn covers_frame(&self, k: int, f: int) -> bool {
        exists|i: int| 0 <= i < self.pile(k).len() && (#[trigger] self.pile(k)[i]).covers(f)
    }

    /// A segment of pile `k` covers frame `f`, and `v` is that frame.
    pub open spec fn holds_frame(&self, k: int, f: int, v: Seq<S>) -> bool {
        exists|i: int|
            0 <= i < self.pile(k).len() && (#[trigger] self.pile(k)[i]).covers(f) && v
                == self.pile(k)[i].frame_at(f)
    }

    /// Whether `pile_id` names a pile of this store.
    pub open spec fn owns(&self, pile_id: PileID) -> bool {
        pile_id.1 == self.id() && pile_id.0 < self.pile_count()
    }

    /// The least-recently used evictable segment, if there is one.
    fn least_recent(&self) -> (r: Option<(usize, usize)>)
        requires
            self.wf(),
        ensures
            match r {
                Some((k, i)) => {
                    &&& k < self.pile_count()
                    &&& i < self.pile(k as int).len()
                    &&& self.pile(k as int)[i as int].data.is_cache()
                    &&& forall|q: int, j: int|
                        #![trigger self.pile(q)[j]]
                        0 <= q < self.pile_count() && 0 <= j < self.pile(q).len()
                            && self.pile(q)[j].data.is_cache()
                            ==> self.pile(k as int)[i as int].recency_idx
                            <= self.pile(q)[j].recency_idx
                },
                None => forall|q: int, j: int|
                    #![trigger self.pile(q)[j]]
                    0 <= q < self.pile_count() && 0 <= j < self.pile(q).len()
                        ==> !self.pile(q)[j].data.is_cache(),
            },
    {
        let mut best: Option<(usize, usize)> = None;
        let mut k: usize = 0;
        while k < self.piles.len()
            invariant
                k <= self.piles@.len(),
                match best {
                    Some((bk, bi)) => {
                        &&& bk < k
                        &&& bi < self.pile(bk as int).len()
                        &&& self.pile(bk as int)[bi as int].data.is_cache()
                        &&& forall|q: int, j: int|
                            #![trigger self.pile(q)[j]]
                            0 <= q < k && 0 <= j < self.pile(q).len()
                                && self.pile(q)[j].data.is_cache()
                                ==> self.pile(bk as int)[bi as int].recency_idx
                                <= self.pile(q)[j].recency_idx
                    },
                    None => forall|q: int, j: int|
                        #![trigger self.pile(q)[j]]
                        0 <= q < k && 0 <= j < self.pile(q).len()
                            ==> !self.pile(q)[j].data.is_cache(),
                },
            decreases self.piles@.len() - k,
        {
            let pile = &self.piles[k];
            let mut i: usize = 0;
            while i < pile.len()
                invariant
                    k < self.piles@.len(),
                    pile@ == self.pile(k as int),
                    i <= pile@.len(),
                    match best {
                        Some((bk, bi)) => {
                            &&& bk <= k
                            &&& bi < self.pile(bk as int).len()
                            &&& self.pile(bk as int)[bi as int].data.is_cache()
                            &&& forall|q: int, j: int|
                                #![trigger self.pile(q)[j]]
                                0 <= q < k && 0 <= j < self.pile(q).len()
                                    && self.pile(q)[j].data.is_cache()
                                    ==> self.pile(bk as int)[bi as int].recency_idx
                                    <= self.pile(q)[j].recency_idx
                            &&& forall|j: int|
                                0 <= j < i && (#[trigger] self.pile(k as int)[j]).data.is_cache()
                                    ==> self.pile(bk as int)[bi as int].recency_idx
                                    <= self.pile(k as int)[j].recency_idx
                        },
                        None => {
                            &&& forall|q: int, j: int|
                                #![trigger self.pile(q)[j]]
                                0 <= q < k && 0 <= j < self.pile(q).len()
                                    ==> !self.pile(q)[j].data.is_cache()
                            &&& forall|j: int|
                                0 <= j < i ==> !(#[trigger] self.pile(k as int)[j]).data.is_cache()
                        },
                    },
                decreases pile@.len() - i,
            {
                let seg = &pile[i];
                if matches!(seg.data, SegmentData::Cache(_)) {
                    let better = match best {
                        None => true,
                        Some((bk, bi)) => seg.recency_idx < self.piles[bk][bi].recency_idx,
                    };
                    if better {
                        best = Some((k, i));
                    }
                }
                i += 1;
            }
            k += 1;
        }
        best
    }

    /// Hands out a fresh recency index.
    fn fresh_recency(&mut self) -> (r: u64)
        ensures
            r == old(self).next_recency,
            final(self).next_recency >= old(self).next_recency,
            recency_below(r, final(self).next_recency),
            final(self).piles == old(self).piles,
            final(self).cache_size == old(self).cache_size,
            final(self).cache_limit_bytes == old(self).cache_limit_bytes,
            final(self).store_id == old(self).store_id,
            final(self).sample_bytes == old(self).sample_bytes,
    {
        let r = self.next_recency;
        if r < u64::MAX {
            self.next_recency = r + 1;
        }
        r
    }

    /// Drops the least-recently used evictable segment.
    fn evict_one(&mut self) -> (r: (usize, usize))
        requires
            old(self).wf(),
            old(self).cache_size > 0,
        ensures
            final(self).wf(),
            final(self).cache_size < old(self).cache_size,
            final(self).cache_size + old(self).pile(r.0 as int)[r.1 as int].cache_bytes(
                old(self).sample_bytes as nat,
            ) == old(self).cache_size,
            final(self).store_id == old(self).store_id,
            final(self).cache_limit_bytes == old(self).cache_limit_bytes,
            final(self).sample_bytes == old(self).sample_bytes,
            final(self).next_recency == old(self).next_recency,
            final(self).piles@.len() == old(self).piles@.len(),
            r.0 < old(self).pile_count(),
            r.1 < old(self).pile(r.0 as int).len(),
            old(self).pile(r.0 as int)[r.1 as int].data.is_cache(),
            forall|q: int, j: int|
                #![trigger old(self).pile(q)[j]]
                0 <= q < old(self).pile_count() && 0 <= j < old(self).pile(q).len()
                    && old(self).pile(q)[j].data.is_cache()
                    ==> old(self).pile(r.0 as int)[r.1 as int].recency_idx
                    <= old(self).pile(q)[j].recency_idx,
            final(self).pile(r.0 as int) == old(self).pile(r.0 as int).remove(r.1 as int),
            forall|k: int| 0 <= k < old(self).pile_count() && k != r.0
                ==> final(self).pile(k) == old(self).pile(k),
    {
        let sb = Ghost(self.sample_bytes as nat);
        match self.least_recent() {
            None => {
                proof {
                    assert forall|k: int, i: int|
                        #![trigger self.piles@[k]@[i]]
                        0 <= k < self.piles@.len() && 0 <= i < self.piles@[k]@.len()
                            implies !self.piles@[k]@[i].data.is_cache() by {
                        assert(self.pile(k)[i] == self.piles@[k]@[i]);
                    }
                    lemma_piles_no_cache(self.piles@, sb@);
                }
                (0, 0)
            },
            Some((k, i)) => {
                let ghost ops = self.piles@;
                let ghost op = ops[k as int]@;
                proof {
                    lemma_pile_bytes_remove(op, i as int, sb@);
                    lemma_pile_within_piles(ops, k as int, sb@);
                    if sb@ == 0 {
                        lemma_piles_zero_width(ops);
                    }
                    assert(op[i as int].well_formed());
                    let len = op[i as int].data.samples().len() as int;
                    let ch = op[i as int].channels as int;
                    if len == 0 {
                        assert(len / ch == 0);
                    }
                    assert(len * sb@ >= 1) by (nonlinear_arith)
                        requires
                            len >= 1,
                            sb@ >= 1,
                    ;
                }
                let bytes = self.piles[k][i].data.len() as u64 * self.sample_bytes;
                self.piles[k].remove(i);
                self.cache_size = self.cache_size - bytes;
                proof {
                    lemma_pile_wf_remove(op, i as int);
                    lemma_piles_bytes_update(ops, k as int, self.piles@[k as int], sb@);
                    assert(ops.update(k as int, self.piles@[k as int]) =~= self.piles@);
                    let np = self.piles@[k as int]@;
                    assert forall|q: int, j: int|
                        #![trigger self.piles@[q]@[j]]
                        0 <= q < self.piles@.len() && 0 <= j < self.piles@[q]@.len()
                            implies recency_below(self.piles@[q]@[j].recency_idx, self.next_recency) by {
                        if q == k {
                            if j < i {
                                assert(np[j] == ops[q]@[j]);
                            } else {
                                assert(np[j] == ops[q]@[j + 1]);
                            }
                        } else {
                            assert(self.piles@[q] == ops[q]);
                        }
                    }
                    assert forall|q: int| 0 <= q < self.piles@.len() implies pile_wf(
                        #[trigger] self.piles@[q]@,
                    ) by {
                        if q != k {
                            assert(self.piles@[q] == ops[q]);
                        }
                    }
                }
                (k, i)
            },
        }
    }

    /// Evicts least-recently used segments until `bytes` more fit under the
    /// bound. Returns a recency index that separates what was evicted (at or
    /// below it) from the evictable segments that stay (at or above it).
    fn make_room(&mut self, bytes: u64) -> (bound: Ghost<u64>)
        requires
            old(self).wf(),
            bytes <= old(self).cache_limit_bytes,
        ensures
            final(self).wf(),
            final(self).store_id == old(self).store_id,
            final(self).cache_limit_bytes == old(self).cache_limit_bytes,
            final(self).sample_bytes == old(self).sample_bytes,
            final(self).next_recency == old(self).next_recency,
            final(self).piles@.len() == old(self).piles@.len(),
            final(self).cache_size + bytes <= final(self).cache_limit_bytes,
            bound@ <= old(self).next_recency,
            (final(self).piles@ == old(self).piles@ && final(self).cache_size == old(self).cache_size)
                || exists|q: int, i: int|
                #![trigger old(self).pile(q)[i]]
                old(self).evicted_into(*final(self), q, i) && old(self).pile(q)[i].recency_idx == bound@
                    && final(self).cache_size + bytes + old(self).pile(q)[i].cache_bytes(
                    old(self).sample_bytes as nat,
                ) > final(self).cache_limit_bytes,
            old(self).cache_size + bytes <= old(self).cache_limit_bytes ==> (final(self).piles@
                == old(self).piles@ && final(self).cache_size == old(self).cache_size),
            forall|q: int, j: int|
                #![trigger final(self).pile(q)[j]]
                0 <= q < final(self).pile_count() && 0 <= j < final(self).pile(q).len()
                    ==> old(self).pile(q).contains(final(self).pile(q)[j]),
            forall|q: int, i: int|
                #![trigger old(self).pile(q)[i]]
                0 <= q < old(self).pile_count() && 0 <= i < old(self).pile(q).len()
                    && !old(self).pile(q)[i].data.is_cache()
                    ==> final(self).pile(q).contains(old(self).pile(q)[i]),
            forall|q: int, i: int|
                #![trigger old(self).pile(q)[i]]
                0 <= q < old(self).pile_count() && 0 <= i < old(self).pile(q).len()
                    && old(self).pile(q)[i].data.is_cache()
                    && !final(self).pile(q).contains(old(self).pile(q)[i])
                    ==> old(self).pile(q)[i].recency_idx <= bound@,
            forall|q: int, j: int|
                #![trigger final(self).pile(q)[j]]
                0 <= q < final(self).pile_count() && 0 <= j < final(self).pile(q).len()
                    && final(self).pile(q)[j].data.is_cache()
                    ==> bound@ <= final(self).pile(q)[j].recency_idx,
    {
        let ghost o = *self;
        let ghost mut bound: u64 = 0;
        proof {
            assert forall|q: int, i: int|
                #![trigger o.pile(q)[i]]
                0 <= q < o.pile_count() && 0 <= i < o.pile(q).len()
                    implies self.pile(q).contains(o.pile(q)[i]) by {
                assert(self.pile(q)[i] == o.pile(q)[i]);
            }
        }
        while self.cache_limit_bytes - self.cache_size < bytes
            invariant
                self.wf(),
                self.store_id == o.store_id,
                self.cache_limit_bytes == o.cache_limit_bytes,
                self.sample_bytes == o.sample_bytes,
                self.next_recency == o.next_recency,
                self.piles@.len() == o.piles@.len(),
                bytes <= self.cache_limit_bytes,
                bound <= o.next_recency,
                (self.piles@ == o.piles@ && self.cache_size == o.cache_size) || exists|q: int, i: int|
                    #![trigger o.pile(q)[i]]
                    o.evicted_into(*self, q, i) && o.pile(q)[i].recency_idx == bound && self.cache_size
                        + bytes + o.pile(q)[i].cache_bytes(o.sample_bytes as nat) > self.cache_limit_bytes,
                o.cache_size + bytes <= o.cache_limit_bytes ==> (self.piles@ == o.piles@
                    && self.cache_size == o.cache_size),
                forall|q: int, j: int|
                    #![trigger self.pile(q)[j]]
                    0 <= q < self.pile_count() && 0 <= j < self.pile(q).len()
                        ==> o.pile(q).contains(self.pile(q)[j]),
                forall|q: int, i: int|
                    #![trigger o.pile(q)[i]]
                    0 <= q < o.pile_count() && 0 <= i < o.pile(q).len()
                        && !o.pile(q)[i].data.is_cache() ==> self.pile(q).contains(o.pile(q)[i]),
                forall|q: int, i: int|
                    #![trigger o.pile(q)[i]]
                    0 <= q < o.pile_count() && 0 <= i < o.pile(q).len()
                        && o.pile(q)[i].data.is_cache() && !self.pile(q).contains(o.pile(q)[i])
                        ==> o.pile(q)[i].recency_idx <= bound,
                forall|q: int, j: int|
                    #![trigger self.pile(q)[j]]
                    0 <= q < self.pile_count() && 0 <= j < self.pile(q).len()
                        && self.pile(q)[j].data.is_cache() ==> bound <= self.pile(q)[j].recency_idx,
            decreases self.cache_size,
        {
            let ghost prev = *self;
            let (k, i) = self.evict_one();
            proof {
                let v = prev.pile(k as int)[i as int];
                bound = v.recency_idx;
                assert(prev.pile(k as int) == prev.piles@[k as int]@);
                lemma_removed_absent(prev.pile(k as int), i as int);
                assert(o.pile(k as int).contains(v));
                let vi = choose|vi: int| 0 <= vi < o.pile(k as int).len() && o.pile(k as int)[vi] == v;
                assert(o.evicted_into(*self, k as int, vi));
                assert(v.recency_idx <= o.next_recency);
                assert forall|q: int, j: int|
                    #![trigger self.pile(q)[j]]
                    0 <= q < self.pile_count() && 0 <= j < self.pile(q).len() implies o.pile(
                        q,
                    ).contains(self.pile(q)[j]) && (self.pile(q)[j].data.is_cache() ==> bound
                        <= self.pile(q)[j].recency_idx) by {
                    let j2 = if q == k && j >= i {
                        j + 1
                    } else {
                        j
                    };
                    assert(self.pile(q)[j] == prev.pile(q)[j2]);
                }
                assert forall|q: int, x: int|
                    #![trigger o.pile(q)[x]]
                    0 <= q < o.pile_count() && 0 <= x < o.pile(q).len() implies (!o.pile(
                        q,
                    )[x].data.is_cache() ==> self.pile(q).contains(o.pile(q)[x])) && ((o.pile(
                        q,
                    )[x].data.is_cache() && !self.pile(q).contains(o.pile(q)[x])) ==> o.pile(
                        q,
                    )[x].recency_idx <= bound) by {
                    let e = o.pile(q)[x];
                    if prev.pile(q).contains(e) {
                        let idx = choose|idx: int|
                            0 <= idx < prev.pile(q).len() && prev.pile(q)[idx] == e;
                        if q != k {
                            assert(self.pile(q)[idx] == e);
                        } else if idx < i {
                            assert(self.pile(q)[idx] == e);
                        } else if idx > i {
                            assert(self.pile(q)[idx - 1] == e);
                        }
                    }
                }
            }
        }
        Ghost(bound)
    }

    /// Stores `data`, interleaved with `channels` samples per frame, as a
    /// segment of pile `pile_id` starting at `frame_idx`. A permanent segment
    /// is never evicted and not counted against the cache bound. Nothing
    /// happens when `data` is empty or the new segment would share a frame
    /// with one already in the pile. An evictable segment first makes room by
    /// evicting the least-recently used evictable segments, as few as needed.
    pub fn insert(
        &mut self,
        pile_id: PileID,
        frame_idx: u64,
        channels: u8,
        data: Vec<S>,
        permanent: bool,
    )
        requires
            old(self).wf(),
            pile_id.1 == old(self).id(),
            pile_id.0 < old(self).pile_count(),
            channels > 0,
            data@.len() % (channels as nat) == 0,
            old(self).bytes_of(data@.len()) <= old(self).cache_limit(),
            frame_idx + data@.len() / (channels as nat) <= u64::MAX,
        ensures
            final(self).wf(),
            final(self).id() == old(self).id(),
            final(self).cache_limit() == old(self).cache_limit(),
            final(self).sample_bytes() == old(self).sample_bytes(),
            final(self).pile_count() == old(self).pile_count(),
            ({
                let hi = frame_idx + data@.len() / (channels as nat);
                let p = pile_id.0 as int;
                if data@.len() == 0 || clashes(old(self).pile(p), frame_idx as int, hi) {
                    *final(self) == *old(self)
                } else {
                &&& exists|j: int|
                    0 <= j < final(self).pile(p).len()
                        && (#[trigger] final(self).pile(p)[j]).frame_idx == frame_idx
                        && final(self).pile(p)[j].data.samples() == data@
                        && final(self).pile(p)[j].channels == channels
                        && final(self).pile(p)[j].data.is_cache() == !permanent
                &&& forall|q: int, j: int|
                    #![trigger final(self).pile(q)[j]]
                    0 <= q < final(self).pile_count() && 0 <= j < final(self).pile(q).len()
                        ==> old(self).pile(q).contains(final(self).pile(q)[j]) || (q == p
                        && final(self).pile(q)[j].frame_idx == frame_idx
                        && final(self).pile(q)[j].data.samples() == data@
                        && final(self).pile(q)[j].channels == channels
                        && final(self).pile(q)[j].data.is_cache() == !permanent)
                &&& forall|q: int, i: int|
                    #![trigger old(self).pile(q)[i]]
                    0 <= q < old(self).pile_count() && 0 <= i < old(self).pile(q).len() && (
                    !old(self).pile(q)[i].data.is_cache() || permanent
                        || old(self).cache_bytes() + old(self).bytes_of(data@.len())
                        <= old(self).cache_limit())
                        ==> final(self).pile(q).contains(old(self).pile(q)[i])
                &&& forall|q: int, i: int, q2: int, j: int|
                    #![trigger old(self).pile(q)[i], final(self).pile(q2)[j]]
                    0 <= q < old(self).pile_count() && 0 <= i < old(self).pile(q).len()
                        && old(self).pile(q)[i].data.is_cache()
                        && !final(self).pile(q).contains(old(self).pile(q)[i])
                        && 0 <= q2 < final(self).pile_count()
                        && 0 <= j < final(self).pile(q2).len()
                        && final(self).pile(q2)[j].data.is_cache()
                        ==> old(self).pile(q)[i].recency_idx <= final(self).pile(q2)[j].recency_idx
                &&& permanent ==> final(self).cache_bytes() == old(self).cache_bytes()
                &&& !permanent ==> (forall|q: int, i: int| !#[trigger] old(self).evicted_into(*final(self), q, i))
                    || exists|q: int, i: int|
                    #![trigger old(self).pile(q)[i]]
                    old(self).evicted_into(*final(self), q, i) && final(self).cache_bytes()
                        + old(self).pile(q)[i].cache_bytes(old(self).sample_bytes()) > final(self).cache_limit()
                        && forall|q2: int, i2: int|
                        #[trigger] old(self).evicted_into(*final(self), q2, i2)
                            ==> old(self).pile(q2)[i2].recency_idx <= old(self).pile(q)[i].recency_idx
                }
            }),
    {
        let p = pile_id.0;
        if data.len() == 0 {
            return ;
        }
        let ch = channels as usize;
        let seg_frames = (data.len() / ch) as u64;
        let hi = frame_idx + seg_frames;
        let ghost op = self.pile(p as int);
        let n = count_starting_by(&self.piles[p], frame_idx);
        if n > 0 {
            let prev_start = self.piles[p][n - 1].frame_idx;
            proof {
                assert(op[n - 1].well_formed());
            }
            let prev_end = prev_start + self.piles[p][n - 1].frames();
            if prev_end > frame_idx {
                proof {
                    assert(op[n - 1].frame_idx < hi && frame_idx < op[n - 1].end());
                }
                return ;
            }
        }
        if n < self.piles[p].len() {
            if self.piles[p][n].frame_idx < hi {
                proof {
                    assert(op[n as int].well_formed());
                    assert(op[n as int].frame_idx < hi && frame_idx < op[n as int].end());
                }
                return ;
            }
        }
        proof {
            assert(!clashes(op, frame_idx as int, hi as int)) by {
                assert forall|i: int| 0 <= i < op.len() implies !((#[trigger] op[i]).frame_idx < hi
                    && frame_idx < op[i].end()) by {
                    if i < n - 1 {
                        assert(op[i].end() <= op[n - 1].frame_idx);
                    } else if i > n {
                        assert(op[n as int].end() <= op[i].frame_idx);
                        assert(op[n as int].frame_idx < op[n as int].end());
                    }
                }
            }
        }
        self.store_segment(p, frame_idx, channels, data, permanent);
    }

    /// Places a segment that shares no frame with its pile.
    #[verifier::rlimit(100)]
    fn store_segment(&mut self, p: usize, frame_idx: u64, channels: u8, data: Vec<S>, permanent: bool)
        requires
            old(self).wf(),
            p < old(self).pile_count(),
            channels > 0,
            data@.len() > 0,
            data@.len() % (channels as nat) == 0,
            old(self).bytes_of(data@.len()) <= old(self).cache_limit(),
            frame_idx + data@.len() / (channels as nat) <= u64::MAX,
            !clashes(old(self).pile(p as int), frame_idx as int, frame_idx + data@.len() / (channels as nat)),
        ensures
            final(self).wf(),
            final(self).id() == old(self).id(),
            final(self).cache_limit() == old(self).cache_limit(),
            final(self).sample_bytes() == old(self).sample_bytes(),
            final(self).pile_count() == old(self).pile_count(),
            ({
                let p = p as int;
                &&& exists|j: int|
                    0 <= j < final(self).pile(p).len()
                        && (#[trigger] final(self).pile(p)[j]).frame_idx == frame_idx
                        && final(self).pile(p)[j].data.samples() == data@
                        && final(self).pile(p)[j].channels == channels
                        && final(self).pile(p)[j].data.is_cache() == !permanent
                &&& forall|q: int, j: int|
                    #![trigger final(self).pile(q)[j]]
                    0 <= q < final(self).pile_count() && 0 <= j < final(self).pile(q).len()
                        ==> old(self).pile(q).contains(final(self).pile(q)[j]) || (q == p
                        && final(self).pile(q)[j].frame_idx == frame_idx
                        && final(self).pile(q)[j].data.samples() == data@
                        && final(self).pile(q)[j].channels == channels
                        && final(self).pile(q)[j].data.is_cache() == !permanent)
                &&& forall|q: int, i: int|
                    #![trigger old(self).pile(q)[i]]
                    0 <= q < old(self).pile_count() && 0 <= i < old(self).pile(q).len() && (
                    !old(self).pile(q)[i].data.is_cache() || permanent
                        || old(self).cache_bytes() + old(self).bytes_of(data@.len())
                        <= old(self).cache_limit())
                        ==> final(self).pile(q).contains(old(self).pile(q)[i])
                &&& forall|q: int, i: int, q2: int, j: int|
                    #![trigger old(self).pile(q)[i], final(self).pile(q2)[j]]
                    0 <= q < old(self).pile_count() && 0 <= i < old(self).pile(q).len()
                        && old(self).pile(q)[i].data.is_cache()
                        && !final(self).pile(q).contains(old(self).pile(q)[i])
                        && 0 <= q2 < final(self).pile_count()
                        && 0 <= j < final(self).pile(q2).len()
                        && final(self).pile(q2)[j].data.is_cache()
                        ==> old(self).pile(q)[i].recency_idx <= final(self).pile(q2)[j].recency_idx
                &&& permanent ==> final(self).cache_bytes() == old(self).cache_bytes()
                &&& !permanent ==> (forall|q: int, i: int| !#[trigger] old(self).evicted_into(*final(self), q, i))
                    || exists|q: int, i: int|
                    #![trigger old(self).pile(q)[i]]
                    old(self).evicted_into(*final(self), q, i) && final(self).cache_bytes()
                        + old(self).pile(q)[i].cache_bytes(old(self).sample_bytes()) > final(self).cache_limit()
                        && forall|q2: int, i2: int|
                        #[trigger] old(self).evicted_into(*final(self), q2, i2)
                            ==> old(self).pile(q2)[i2].recency_idx <= old(self).pile(q)[i].recency_idx
            }),
    {
        let ghost d = data@;
        let ghost sb = self.sample_bytes as nat;
        let ghost o = *self;
        let ghost hi = frame_idx + d.len() / (channels as nat);
        let bytes: u64 = data.len() as u64 * self.sample_bytes;
        let ghost mut bound: u64 = 0;
        if !permanent {
            let g = self.make_room(bytes);
            proof {
                bound = g@;
            }
        } else {
            proof {
                assert forall|q: int, i: int|
                    #![trigger o.pile(q)[i]]
                    0 <= q < o.pile_count() && 0 <= i < o.pile(q).len()
                        implies self.pile(q).contains(o.pile(q)[i]) by {
                    assert(self.pile(q)[i] == o.pile(q)[i]);
                }
            }
        }
        let ghost mid = *self;
        let fresh = self.fresh_recency();
        let n2 = count_starting_by(&self.piles[p], frame_idx);
        let seg = Segment {
            frame_idx,
            data: if permanent {
                SegmentData::Mem(data)
            } else {
                SegmentData::Cache(data)
            },
            recency_idx: fresh,
            channels,
        };
        let ghost cur = mid.pile(p as int);
        proof {
            let len = d.len() as int;
            let c = channels as int;
            assert(len / c >= 1) by (nonlinear_arith)
                requires
                    len > 0,
                    c > 0,
                    len % c == 0,
            ;
            assert(seg.well_formed());
            assert(seg.end() == hi);
            if n2 > 0 {
                assert(o.pile(p as int).contains(cur[n2 - 1]));
            }
            if n2 < cur.len() {
                assert(o.pile(p as int).contains(cur[n2 as int]));
            }
            lemma_pile_wf_insert(cur, n2 as int, seg);
            lemma_pile_bytes_insert(cur, n2 as int, seg, sb);
        }
        self.piles[p].insert(n2, seg);
        if !permanent {
            self.cache_size = self.cache_size + bytes;
        }
        proof {
            let before = mid.piles@;
            lemma_piles_bytes_update(before, p as int, self.piles@[p as int], sb);
            assert(before.update(p as int, self.piles@[p as int]) =~= self.piles@);
            let np = self.pile(p as int);
            assert(np[n2 as int] == seg);
            assert forall|q: int, j: int|
                #![trigger self.piles@[q]@[j]]
                0 <= q < self.piles@.len() && 0 <= j < self.piles@[q]@.len()
                    implies recency_below(self.piles@[q]@[j].recency_idx, self.next_recency) by {
                if q == p && j > n2 {
                    assert(np[j] == cur[j - 1]);
                    assert(mid.pile(q)[j - 1] == mid.piles@[q]@[j - 1]);
                } else if q == p && j < n2 {
                    assert(np[j] == cur[j]);
                    assert(mid.pile(q)[j] == mid.piles@[q]@[j]);
                } else if q != p {
                    assert(self.piles@[q] == before[q]);
                }
            }
            assert forall|q: int| 0 <= q < self.piles@.len() implies pile_wf(
                #[trigger] self.piles@[q]@,
            ) by {
                if q != p {
                    assert(self.piles@[q] == before[q]);
                }
            }
            lemma_insert_members(cur, n2 as int, seg);
            assert(np == cur.insert(n2 as int, seg));
            assert forall|q: int, j: int|
                #![trigger self.pile(q)[j]]
                0 <= q < self.pile_count() && 0 <= j < self.pile(q).len() implies (o.pile(q).contains(
                    self.pile(q)[j],
                ) || (q == p && self.pile(q)[j].frame_idx == frame_idx && self.pile(q)[j].data.samples()
                    == d && self.pile(q)[j].channels == channels && self.pile(q)[j].data.is_cache()
                    == !permanent)) && (self.pile(q)[j].data.is_cache() ==> bound
                    <= self.pile(q)[j].recency_idx) by {
                if q == p {
                    if np[j] != seg {
                        let idx = choose|idx: int| 0 <= idx < cur.len() && cur[idx] == np[j];
                        assert(mid.pile(q)[idx] == cur[idx]);
                    }
                } else {
                    assert(self.pile(q)[j] == mid.pile(q)[j]);
                }
            }
            assert forall|q: int, x: int|
                #![trigger o.pile(q)[x]]
                0 <= q < o.pile_count() && 0 <= x < o.pile(q).len() && mid.pile(q).contains(
                    o.pile(q)[x],
                ) implies self.pile(q).contains(o.pile(q)[x]) by {
                if q != p {
                    assert(self.pile(q) == mid.pile(q));
                }
            }
            lemma_insert_keeps_evictions(o, mid, *self, p as int, n2 as int, seg);
            if !permanent && !(mid.piles@ == o.piles@ && mid.cache_size == o.cache_size) {
                let (q, i) = choose|q: int, i: int|
                    #![trigger o.pile(q)[i]]
                    o.evicted_into(mid, q, i) && o.pile(q)[i].recency_idx == bound
                        && mid.cache_size + bytes + o.pile(q)[i].cache_bytes(o.sample_bytes as nat)
                        > mid.cache_limit_bytes;
                assert(o.evicted_into(*self, q, i));
            } else if !permanent {
                assert forall|q: int, i: int| !#[trigger] o.evicted_into(*self, q, i) by {
                    if o.evicted_into(*self, q, i) {
                        assert(mid.pile(q).contains(o.pile(q)[i])) by {
                            assert(mid.pile(q)[i] == o.pile(q)[i]);
                        }
                    }
                }
            }
            assert(exists|j: int|
                0 <= j < self.pile(p as int).len() && (#[trigger] self.pile(p as int)[j]).frame_idx
                    == frame_idx && self.pile(p as int)[j].data.samples() == d
                    && self.pile(p as int)[j].channels == channels
                    && self.pile(p as int)[j].data.is_cache() == !permanent) by {
                assert(self.pile(p as int)[n2 as int] == seg);
            }
        }
    }

    /// Removes every segment of pile `pile_id`.
    pub fn drop_pile(&mut self, pile_id: PileID)
        requires
            old(self).wf(),
            pile_id.1 == old(self).id(),
            pile_id.0 < old(self).pile_count(),
        ensures
            final(self).wf(),
            final(self).id() == old(self).id(),
            final(self).cache_limit() == old(self).cache_limit(),
            final(self).sample_bytes() == old(self).sample_bytes(),
            final(self).pile_count() == old(self).pile_count(),
            final(self).pile(pile_id.0 as int).len() == 0,
            forall|k: int| 0 <= k < old(self).pile_count() && k != pile_id.0
                ==> final(self).pile(k) == old(self).pile(k),
            final(self).cache_bytes() + pile_bytes(old(self).pile(pile_id.0 as int), old(self).sample_bytes())
                == old(self).cache_bytes(),
    {
        let p = pile_id.0;
        let ghost sb = self.sample_bytes as nat;
        let ghost ops = self.piles@;
        let ghost op = self.pile(p as int);
        proof {
            lemma_pile_within_piles(ops, p as int, sb);
        }
        let mut freed: u64 = 0;
        let mut i: usize = 0;
        let len = self.piles[p].len();
        while i < len
            invariant
                i <= len,
                len == op.len(),
                self.piles@ == ops,
                p < ops.len(),
                op == self.pile(p as int),
                sb == self.sample_bytes,
                pile_bytes(op, sb) <= self.cache_size,
                freed as nat == pile_bytes(op.subrange(0, i as int), sb),
            decreases len - i,
        {
            proof {
                assert(op.subrange(0, i + 1).drop_last() =~= op.subrange(0, i as int));
                lemma_pile_bytes_prefix(op, i + 1, sb);
            }
            if matches!(self.piles[p][i].data, SegmentData::Cache(_)) {
                freed = freed + self.piles[p][i].data.len() as u64 * self.sample_bytes;
            }
            i += 1;
        }
        proof {
            assert(op.subrange(0, len as int) =~= op);
        }
        self.piles[p] = Vec::new();
        self.cache_size = self.cache_size - freed;
        proof {
            lemma_piles_bytes_update(ops, p as int, self.piles@[p as int], sb);
            assert(ops.update(p as int, self.piles@[p as int]) =~= self.piles@);
            assert forall|q: int| 0 <= q < self.piles@.len() implies pile_wf(
                #[trigger] self.piles@[q]@,
            ) by {
                if q != p {
                    assert(self.piles@[q] == ops[q]);
                }
            }
            assert forall|q: int, j: int|
                #![trigger self.piles@[q]@[j]]
                0 <= q < self.piles@.len() && 0 <= j < self.piles@[q]@.len()
                    implies recency_below(self.piles@[q]@[j].recency_idx, self.next_recency) by {
                assert(self.piles@[q] == ops[q]);
            }
        }
    }

    /// Allocates a fresh, empty pile.
    pub fn new_pile_id(&mut self) -> (r: PileID)
        requires
            old(self).wf(),
        ensures
            final(self).wf(),
            r.1 == old(self).id(),
            r.0 == old(self).pile_count(),
            final(self).pile_count() == old(self).pile_count() + 1,
            final(self).pile(r.0 as int).len() == 0,
            forall|k: int| 0 <= k < old(self).pile_count() ==> final(self).pile(k) == old(self).pile(k),
            final(self).id() == old(self).id(),
            final(self).cache_bytes() == old(self).cache_bytes(),
            final(self).cache_limit() == old(self).cache_limit(),
            final(self).sample_bytes() == old(self).sample_bytes(),
    {
        let ghost ps = self.piles@;
        self.piles.push(Vec::new());
        proof {
            assert(self.piles@.drop_last() =~= ps);
        }
        PileID(self.piles.len() - 1, self.store_id)
    }

    /// The samples of frame `frame_idx` of pile `pile_id`, if a segment
    /// covers it. A hit on an evictable segment makes it the most recent.
    pub fn find(&mut self, pile_id: PileID, frame_idx: u64) -> (r: Option<Vec<S>>)
        requires
            old(self).wf(),
            pile_id.1 == old(self).id(),
            pile_id.0 < old(self).pile_count(),
        ensures
            final(self).wf(),
            final(self).id() == old(self).id(),
            final(self).cache_bytes() == old(self).cache_bytes(),
            final(self).cache_limit() == old(self).cache_limit(),
            final(self).sample_bytes() == old(self).sample_bytes(),
            final(self).pile_count() == old(self).pile_count(),
            forall|k: int| 0 <= k < old(self).pile_count() && k != pile_id.0
                ==> final(self).pile(k) == old(self).pile(k),
            final(self).pile(pile_id.0 as int).len() == old(self).pile(pile_id.0 as int).len(),
            forall|i: int|
                #![trigger final(self).pile(pile_id.0 as int)[i]]
                0 <= i < old(self).pile(pile_id.0 as int).len() ==> {
                    let a = old(self).pile(pile_id.0 as int)[i];
                    let b = final(self).pile(pile_id.0 as int)[i];
                    &&& b.frame_idx == a.frame_idx
                    &&& b.data == a.data
                    &&& b.channels == a.channels
                    &&& b.recency_idx == if a.covers(frame_idx as int) && a.data.is_cache() {
                        old(self).next_recency()
                    } else {
                        a.recency_idx
                    }
                },
            match r {
                None => forall|i: int|
                    0 <= i < old(self).pile(pile_id.0 as int).len()
                        ==> !(#[trigger] old(self).pile(pile_id.0 as int)[i]).covers(frame_idx as int),
                Some(v) => exists|i: int|
                    0 <= i < old(self).pile(pile_id.0 as int).len()
                        && (#[trigger] old(self).pile(pile_id.0 as int)[i]).covers(frame_idx as int)
                        && v@ == old(self).pile(pile_id.0 as int)[i].frame_at(frame_idx as int),
            },
    {
        let p = pile_id.0;
        let ghost op = self.pile(p as int);
        let n = count_starting_by(&self.piles[p], frame_idx);
        if n == 0 {
            proof {
                assert forall|i: int| 0 <= i < op.len() implies !(#[trigger] op[i]).covers(frame_idx as int) by {}
            }
            return None;
        }
        let i = n - 1;
        let seg = &self.piles[p][i];
        proof {
            assert(pile_wf(op));
            assert(op[i as int].well_formed());
        }
        let start = seg.frame_idx;
        let end = start + seg.frames();
        if end <= frame_idx {
            proof {
                assert forall|j: int| 0 <= j < op.len() implies !(#[trigger] op[j]).covers(frame_idx as int) by {
                    if j < i {
                        assert(op[j].end() <= op[i as int].frame_idx);
                    }
                }
            }
            return None;
        }
        let ch = seg.channels as usize;
        let data = seg.data.fetch();
        let rel64 = frame_idx - start;
        let dlen = data.len();
        proof {
            let len = data@.len() as int;
            let fc = op[i as int].frame_count() as int;
            assert(len == fc * ch) by (nonlinear_arith)
                requires
                    len % (ch as int) == 0,
                    fc == len / (ch as int),
                    ch > 0,
            ;
            assert(rel64 * ch + ch <= len) by (nonlinear_arith)
                requires
                    len == fc * ch,
                    rel64 < fc,
                    ch > 0,
                    rel64 >= 0,
            ;
            assert(rel64 <= rel64 * ch) by (nonlinear_arith)
                requires
                    ch > 0,
                    rel64 >= 0,
            ;
            assert(dlen == len);
        }
        let rel = rel64 as usize;
        let lo = rel * ch;
        let mut out: Vec<S> = Vec::new();
        let mut c: usize = 0;
        while c < ch
            invariant
                c <= ch,
                lo + ch <= data@.len(),
                data@.len() == dlen,
                out@ == data@.subrange(lo as int, lo + c),
            decreases ch - c,
        {
            out.push(data[lo + c]);
            c += 1;
            proof {
                assert(out@ =~= data@.subrange(lo as int, lo + c));
            }
        }
        let is_cache = matches!(seg.data, SegmentData::Cache(_));
        if is_cache {
            let fresh = self.fresh_recency();
            self.piles[p][i].recency_idx = fresh;
        }
        proof {
            let np = self.pile(p as int);
            assert forall|j: int| 0 <= j < op.len() && j != i implies !(#[trigger] op[j]).covers(
                frame_idx as int,
            ) by {
                if j < i {
                    assert(op[j].end() <= op[i as int].frame_idx);
                } else {
                    assert(op[i as int].end() <= op[j].frame_idx);
                }
            }
            assert(pile_wf(np));
            if is_cache {
                lemma_pile_bytes_update(op, i as int, np[i as int], self.sample_bytes as nat);
                assert(op.update(i as int, np[i as int]) =~= np);
                lemma_piles_bytes_update(
                    old(self).piles@,
                    p as int,
                    self.piles@[p as int],
                    self.sample_bytes as nat,
                );
                assert(old(self).piles@.update(p as int, self.piles@[p as int]) =~= self.piles@);
            } else {
                assert(self.piles@ =~= old(self).piles@);
            }
            assert(lo as int == (frame_idx - op[i as int].frame_idx) * op[i as int].channels);
            assert(out@ == op[i as int].frame_at(frame_idx as int));
        }
        Some(out)
    }
}

/// Placing a segment that clashes with nothing in its pile removes no
/// segment: what was evicted before it is exactly what is missing after.
proof fn lemma_insert_keeps_evictions<S: Copy>(
    o: SegmentStore<S>,
    mid: SegmentStore<S>,
    fin: SegmentStore<S>,
    p: int,
    n2: int,
    seg: Segment<S>,
)
    requires
        0 <= p < mid.pile_count(),
        0 <= n2 <= mid.pile(p).len(),
        o.pile_count() == mid.pile_count(),
        fin.pile_count() == mid.pile_count(),
        fin.pile(p) == mid.pile(p).insert(n2, seg),
        forall|q: int| 0 <= q < mid.pile_count() && q != p ==> fin.pile(q) == mid.pile(q),
        seg.frame_idx < seg.end(),
        !clashes(o.pile(p), seg.frame_idx as int, seg.end()),
    ensures
        forall|q: int, i: int| #[trigger] o.evicted_into(fin, q, i) <==> o.evicted_into(mid, q, i),
{
    assert forall|q: int, i: int| #[trigger] o.evicted_into(fin, q, i) <==> o.evicted_into(mid, q, i) by {
        if 0 <= q < o.pile_count() && 0 <= i < o.pile(q).len() {
            let e = o.pile(q)[i];
            if q == p {
                lemma_insert_members(mid.pile(p), n2, seg);
                if fin.pile(q).contains(e) && !mid.pile(q).contains(e) {
                    assert(e == seg);
                    assert(o.pile(p)[i].frame_idx < seg.end() && seg.frame_idx < o.pile(p)[i].end());
                }
            }
        }
    }
}

/// No two segments of a pile cover a shared frame.
pub proof fn lemma_segments_disjoint<S: Copy>(store: &SegmentStore<S>, k: int, i: int, j: int, f: int)
    requires
        store.wf(),
        0 <= k < store.pile_count(),
        0 <= i < store.pile(k).len(),
        0 <= j < store.pile(k).len(),
        i != j,
    ensures
        !(store.pile(k)[i].covers(f) && store.pile(k)[j].covers(f)),
{
    reveal(SegmentStore::wf);
    let p = store.pile(k);
    assert(pile_wf(store.piles@[k]@));
    if i < j {
        assert(p[i].end() <= p[j].frame_idx);
    } else {
        assert(p[j].end() <= p[i].frame_idx);
    }
}

/// Every operation keeps a store well formed, and a well-formed store holds
/// no more evictable bytes than its bound.
pub proof fn lemma_cache_within_limit<S: Copy>(store: &SegmentStore<S>)
    requires
        store.wf(),
    ensures
        store.cache_bytes() <= store.cache_limit(),
{
}

/// Every recency index in a store was handed out before its next one: a
/// lookup or insert that takes the next index makes that segment the most
/// recent.
pub proof fn lemma_recency_below_next<S: Copy>(store: &SegmentStore<S>, k: int, i: int)
    requires
        store.wf(),
        0 <= k < store.pile_count(),
        0 <= i < store.pile(k).len(),
    ensures
        recency_below(store.pile(k)[i].recency_idx, store.next_recency()),
{
    assert(store.pile(k)[i] == store.piles@[k]@[i]);
}

/// The evictable bytes of piles `0..k` of `store`.
pub open spec fn piles_prefix_bytes<S: Copy>(store: SegmentStore<S>, k: int) -> nat
    decreases k,
{
    if k <= 0 {
        0
    } else {
        piles_prefix_bytes(store, k - 1) + pile_bytes(store.pile(k - 1), store.sample_bytes())
    }
}

proof fn lemma_prefix_bytes<S: Copy>(store: SegmentStore<S>, k: int)
    requires
        0 <= k <= store.pile_count(),
    ensures
        piles_prefix_bytes(store, k) == piles_bytes(store.piles@.subrange(0, k), store.sample_bytes as nat),
    decreases k,
{
    if k > 0 {
        lemma_prefix_bytes(store, k - 1);
        assert(store.piles@.subrange(0, k).drop_last() =~= store.piles@.subrange(0, k - 1));
    }
}

/// A store's cache size is the bytes of its evictable segments.
pub proof fn lemma_cache_bytes_is_evictable_sum<S: Copy>(store: &SegmentStore<S>)
    requires
        store.wf(),
    ensures
        store.cache_bytes() == piles_prefix_bytes(*store, store.pile_count() as int),
{
    lemma_prefix_bytes(*store, store.pile_count() as int);
    assert(store.piles@.subrange(0, store.pile_count() as int) =~= store.piles@);
}

} // verus!
