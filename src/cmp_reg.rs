//! The registry that hands every consumer of a (composition, sample rate)
//! pair the stream of one shared producer.
use vstd::prelude::*;

verus! {

/// A producer either runs, holding the newest buffer of its stream, or has
/// stopped for good.
pub enum CompositorState<H> {
    Active(H),
    Killed,
}

/// What a consumer's request for a (composition, sample rate) pair leads to.
pub enum BufPlan<'a, C, H> {
    /// A producer runs: this is its newest buffer.
    Serve(&'a H),
    /// None runs: start one for this composition.
    Start(&'a C),
    /// No composition has the id.
    Unknown,
}

/// The registry's record of one producer.
pub struct CompositorData<H> {
    sample_rate: u32,
    cmp_id: String,
    state: CompositorState<H>,
}

impl<H> CompositorData<H> {
    pub closed spec fn id_view(&self) -> Seq<char> {
        self.cmp_id@
    }

    pub closed spec fn rate(&self) -> u32 {
        self.sample_rate
    }

    pub closed spec fn state_view(&self) -> CompositorState<H> {
        self.state
    }

    pub open spec fn is_active(&self) -> bool {
        self.state_view() is Active
    }

    pub fn new(cmp_id: String, sample_rate: u32, state: CompositorState<H>) -> (r: Self)
        ensures
            r.id_view() == cmp_id@,
            r.rate() == sample_rate,
            r.state_view() == state,
    {
        CompositorData { cmp_id, sample_rate, state }
    }
}

/// Known compositions, by id, and the records of their producers.
pub struct CompositionRegistry<C, H> {
    compositions: Vec<(String, C)>,
    compositors: Vec<CompositorData<H>>,
}

impl<C, H> CompositionRegistry<C, H> {
    pub closed spec fn ids(&self) -> Seq<Seq<char>> {
        self.compositions@.map_values(|e: (String, C)| e.0@)
    }

    pub closed spec fn composition(&self, i: int) -> C {
        self.compositions@[i].1
    }

    pub closed spec fn records(&self) -> Seq<CompositorData<H>> {
        self.compositors@
    }

    /// Composition ids are unique, and no two running producers serve the
    /// same composition at the same rate.
    pub open spec fn wf(&self) -> bool {
        &&& forall|i: int, j: int|
            0 <= i < j < self.ids().len() ==> #[trigger] self.ids()[i] != #[trigger] self.ids()[j]
        &&& forall|i: int, j: int|
            0 <= i < j < self.records().len() && (#[trigger] self.records()[i]).is_active()
                && (#[trigger] self.records()[j]).is_active() ==> !(self.records()[i].id_view()
                == self.records()[j].id_view() && self.records()[i].rate()
                == self.records()[j].rate())
    }

    /// A running producer serves `id` at `rate`.
    pub open spec fn serves(&self, id: Seq<char>, rate: u32) -> bool {
        exists|i: int|
            0 <= i < self.records().len() && (#[trigger] self.records()[i]).is_active()
                && self.records()[i].id_view() == id && self.records()[i].rate() == rate
    }

    pub fn new() -> (r: Self)
        ensures
            r.wf(),
            r.ids().len() == 0,
            r.records().len() == 0,
    {
        let r = CompositionRegistry { compositions: Vec::new(), compositors: Vec::new() };
        proof {
            assert(r.ids() =~= Seq::<Seq<char>>::empty());
        }
        r
    }

    fn index_of(&self, cmp_id: &str) -> (r: Option<usize>)
        ensures
            match r {
                Some(i) => i < self.ids().len() && self.ids()[i as int] == cmp_id@,
                None => forall|i: int| 0 <= i < self.ids().len() ==> self.ids()[i] != cmp_id@,
            },
    {
        let key = cmp_id.to_owned();
        let mut i: usize = 0;
        while i < self.compositions.len()
            invariant
                i <= self.compositions@.len(),
                key@ == cmp_id@,
                forall|j: int| 0 <= j < i ==> self.ids()[j] != cmp_id@,
            decreases self.compositions@.len() - i,
        {
            if self.compositions[i].0 == key {
                return Some(i);
            }
            i += 1;
        }
        None
    }

    /// The composition registered under `cmp_id`.
    pub fn find_composition(&self, cmp_id: &str) -> (r: Option<&C>)
        ensures
            r is Some <==> self.ids().contains(cmp_id@),
            r matches Some(c) ==> exists|i: int|
                0 <= i < self.ids().len() && self.ids()[i] == cmp_id@ && *c == self.composition(i),
    {
        match self.index_of(cmp_id) {
            Some(i) => {
                proof {
                    assert(self.ids()[i as int] == cmp_id@ && self.compositions@[i as int].1
                        == self.composition(i as int));
                }
                Some(&self.compositions[i].1)
            },
            None => {
                proof {
                    if self.ids().contains(cmp_id@) {
                        let j = choose|j: int| 0 <= j < self.ids().len() && self.ids()[j] == cmp_id@;
                    }
                }
                None
            },
        }
    }

    /// Registers `cmp` under the id `cmp_id`, which no composition has yet.
    pub fn push_composition(&mut self, cmp_id: String, cmp: C)
        requires
            old(self).wf(),
            !old(self).ids().contains(cmp_id@),
        ensures
            final(self).wf(),
            final(self).ids() == old(self).ids().push(cmp_id@),
            final(self).composition(old(self).ids().len() as int) == cmp,
            forall|i: int| 0 <= i < old(self).ids().len() ==> final(self).composition(i) == old(self).composition(i),
            final(self).records() == old(self).records(),
    {
        self.compositions.push((cmp_id, cmp));
        proof {
            assert(self.ids() =~= old(self).ids().push(cmp_id@));
            assert(self.records() == old(self).records());
            assert forall|i: int, j: int|
                0 <= i < j < self.ids().len() implies #[trigger] self.ids()[i] != #[trigger] self.ids()[j] by {
                if j == old(self).ids().len() {
                    assert(old(self).ids()[i] == self.ids()[i]);
                    assert(old(self).ids().contains(self.ids()[i]));
                } else {
                    assert(old(self).ids()[i] == self.ids()[i]);
                    assert(old(self).ids()[j] == self.ids()[j]);
                }
            }
        }
    }

    fn active_index(&self, cmp_id: &str, sample_rate: u32) -> (r: Option<usize>)
        ensures
            match r {
                Some(i) => i < self.records().len() && self.records()[i as int].is_active()
                    && self.records()[i as int].id_view() == cmp_id@ && self.records()[i as int].rate()
                    == sample_rate,
                None => !self.serves(cmp_id@, sample_rate),
            },
    {
        let key = cmp_id.to_owned();
        let mut i: usize = 0;
        while i < self.compositors.len()
            invariant
                i <= self.compositors@.len(),
                key@ == cmp_id@,
                forall|j: int|
                    0 <= j < i ==> !((#[trigger] self.records()[j]).is_active() && self.records()[j].id_view()
                        == cmp_id@ && self.records()[j].rate() == sample_rate),
            decreases self.compositors@.len() - i,
        {
            let rec = &self.compositors[i];
            if rec.cmp_id == key && rec.sample_rate == sample_rate {
                if let CompositorState::Active(_) = rec.state {
                    return Some(i);
                }
            }
            i += 1;
        }
        None
    }

    /// The newest buffer of the running producer for `cmp_id` at
    /// `sample_rate`, if there is one.
    pub fn active_buf(&self, cmp_id: &str, sample_rate: u32) -> (r: Option<&H>)
        ensures
            r is Some <==> self.serves(cmp_id@, sample_rate),
            r matches Some(h) ==> exists|i: int|
                0 <= i < self.records().len() && self.records()[i].id_view() == cmp_id@
                    && self.records()[i].rate() == sample_rate && self.records()[i].state_view()
                    == CompositorState::Active(*h),
    {
        match self.active_index(cmp_id, sample_rate) {
            Some(i) => match &self.compositors[i].state {
                CompositorState::Active(h) => Some(h),
                CompositorState::Killed => None,
            },
            None => None,
        }
    }

    /// How to answer a consumer that asks for `cmp_id` at `sample_rate`: the
    /// running producer's newest buffer, else the composition to start a
    /// producer for, else nothing.
    pub fn plan_active_buf<'a>(&'a self, cmp_id: &str, sample_rate: u32) -> (r: BufPlan<'a, C, H>)
        ensures
            self.serves(cmp_id@, sample_rate) ==> r is Serve,
            r matches BufPlan::Serve(h) ==> exists|i: int|
                0 <= i < self.records().len() && self.records()[i].id_view() == cmp_id@
                    && self.records()[i].rate() == sample_rate && self.records()[i].state_view()
                    == CompositorState::Active(*h),
            !self.serves(cmp_id@, sample_rate) && self.ids().contains(cmp_id@) ==> r is Start,
            r matches BufPlan::Start(c) ==> exists|i: int|
                0 <= i < self.ids().len() && self.ids()[i] == cmp_id@ && *c == self.composition(i),
            r is Unknown <==> !self.serves(cmp_id@, sample_rate) && !self.ids().contains(cmp_id@),
    {
        match self.active_buf(cmp_id, sample_rate) {
            Some(h) => BufPlan::Serve(h),
            None => match self.find_composition(cmp_id) {
                Some(c) => BufPlan::Start(c),
                None => BufPlan::Unknown,
            },
        }
    }

    /// Records a new producer; a running one must serve a pair that no other
    /// running producer serves.
    pub fn push_compositor(&mut self, data: CompositorData<H>)
        requires
            old(self).wf(),
            data.is_active() ==> !old(self).serves(data.id_view(), data.rate()),
        ensures
            final(self).wf(),
            final(self).records() == old(self).records().push(data),
            final(self).ids() == old(self).ids(),
    {
        self.compositors.push(data);
        proof {
            assert forall|i: int, j: int|
                0 <= i < j < self.records().len() && (#[trigger] self.records()[i]).is_active()
                    && (#[trigger] self.records()[j]).is_active() implies !(self.records()[i].id_view()
                    == self.records()[j].id_view() && self.records()[i].rate()
                    == self.records()[j].rate()) by {
                if j == old(self).records().len() {
                    assert(self.records()[i] == old(self).records()[i]);
                } else {
                    assert(self.records()[i] == old(self).records()[i]);
                    assert(self.records()[j] == old(self).records()[j]);
                }
            }
            assert(self.ids() =~= old(self).ids());
        }
    }

    /// Replaces the newest buffer of the running producer for `cmp_id` at
    /// `sample_rate`; `false` when no such producer runs.
    pub fn set_head(&mut self, cmp_id: &str, sample_rate: u32, head: H) -> (r: bool)
        requires
            old(self).wf(),
        ensures
            final(self).wf(),
            final(self).ids() == old(self).ids(),
            r == old(self).serves(cmp_id@, sample_rate),
            final(self).records().len() == old(self).records().len(),
            forall|i: int|
                0 <= i < old(self).records().len() ==> {
                    let a = old(self).records()[i];
                    let b = #[trigger] final(self).records()[i];
                    &&& b.id_view() == a.id_view()
                    &&& b.rate() == a.rate()
                    &&& b.is_active() == a.is_active()
                    &&& b.state_view() == if a.is_active() && a.id_view() == cmp_id@ && a.rate()
                        == sample_rate {
                        CompositorState::Active(head)
                    } else {
                        a.state_view()
                    }
                },
    {
        match self.active_index(cmp_id, sample_rate) {
            Some(i) => {
                self.compositors[i].state = CompositorState::Active(head);
                proof {
                    assert(self.ids() =~= old(self).ids());
                    assert forall|k: int|
                        0 <= k < old(self).records().len() && k != i implies !(old(
                            self,
                        ).records()[k].is_active() && old(self).records()[k].id_view() == cmp_id@
                            && old(self).records()[k].rate() == sample_rate) by {
                        if k < i {
                            assert(old(self).records()[k].is_active() && old(self).records()[i as int].is_active()
                                ==> !(old(self).records()[k].id_view() == old(self).records()[i as int].id_view()
                                && old(self).records()[k].rate() == old(self).records()[i as int].rate()));
                        } else {
                            assert(old(self).records()[i as int].is_active() && old(self).records()[k].is_active()
                                ==> !(old(self).records()[i as int].id_view() == old(self).records()[k].id_view()
                                && old(self).records()[i as int].rate() == old(self).records()[k].rate()));
                        }
                    }
                    assert forall|a: int, b: int|
                        0 <= a < b < self.records().len() && (#[trigger] self.records()[a]).is_active()
                            && (#[trigger] self.records()[b]).is_active() implies !(self.records()[a].id_view()
                            == self.records()[b].id_view() && self.records()[a].rate()
                            == self.records()[b].rate()) by {
                        assert(old(self).records()[a].is_active());
                        assert(old(self).records()[b].is_active());
                    }
                }
                true
            },
            None => false,
        }
    }

    /// Marks the running producer for `cmp_id` at `sample_rate` as stopped.
    pub fn mark_killed(&mut self, cmp_id: &str, sample_rate: u32)
        requires
            old(self).wf(),
        ensures
            final(self).wf(),
            final(self).ids() == old(self).ids(),
            !final(self).serves(cmp_id@, sample_rate),
            final(self).records().len() == old(self).records().len(),
            forall|i: int|
                #![trigger final(self).records()[i]]
                0 <= i < old(self).records().len() ==> final(self).records()[i].id_view() == old(
                    self,
                ).records()[i].id_view() && final(self).records()[i].rate() == old(self).records()[i].rate()
                    && final(self).records()[i].state_view() == if old(self).records()[i].is_active()
                    && old(self).records()[i].id_view() == cmp_id@ && old(self).records()[i].rate()
                    == sample_rate {
                    CompositorState::Killed
                } else {
                    old(self).records()[i].state_view()
                },
    {
        match self.active_index(cmp_id, sample_rate) {
            Some(i) => {
                self.compositors[i].state = CompositorState::Killed;
                proof {
                    assert(self.ids() =~= old(self).ids());
                    assert forall|k: int|
                        0 <= k < old(self).records().len() && k != i implies !(old(
                            self,
                        ).records()[k].is_active() && old(self).records()[k].id_view() == cmp_id@
                            && old(self).records()[k].rate() == sample_rate) by {
                        if k < i {
                            assert(old(self).records()[k].is_active() && old(self).records()[i as int].is_active()
                                ==> !(old(self).records()[k].id_view() == old(self).records()[i as int].id_view()
                                && old(self).records()[k].rate() == old(self).records()[i as int].rate()));
                        } else {
                            assert(old(self).records()[i as int].is_active() && old(self).records()[k].is_active()
                                ==> !(old(self).records()[i as int].id_view() == old(self).records()[k].id_view()
                                && old(self).records()[i as int].rate() == old(self).records()[k].rate()));
                        }
                    }
                    assert forall|a: int, b: int|
                        0 <= a < b < self.records().len() && (#[trigger] self.records()[a]).is_active()
                            && (#[trigger] self.records()[b]).is_active() implies !(self.records()[a].id_view()
                            == self.records()[b].id_view() && self.records()[a].rate()
                            == self.records()[b].rate()) by {
                        assert(old(self).records()[a].is_active());
                        assert(old(self).records()[b].is_active());
                    }
                    assert forall|k: int|
                        0 <= k < self.records().len() implies !((#[trigger] self.records()[k]).is_active()
                            && self.records()[k].id_view() == cmp_id@ && self.records()[k].rate()
                            == sample_rate) by {
                        if k != i {
                            assert(self.records()[k] == old(self).records()[k]);
                        }
                    }
                }
            },
            None => {
                proof {
                    assert(self.records() == old(self).records());
                }
            },
        }
    }

    /// Drops the records of stopped producers.
    pub fn prune(&mut self)
        requires
            old(self).wf(),
        ensures
            final(self).wf(),
            final(self).ids() == old(self).ids(),
            forall|i: int|
                0 <= i < final(self).records().len() ==> (#[trigger] final(self).records()[i]).is_active()
                    && old(self).records().contains(final(self).records()[i]),
            forall|j: int|
                0 <= j < old(self).records().len() && (#[trigger] old(self).records()[j]).is_active()
                    ==> final(self).records().contains(old(self).records()[j]),
    {
        let ghost recs = self.records();
        let mut kept: Vec<CompositorData<H>> = Vec::new();
        let mut i: usize = 0;
        let len = self.compositors.len();
        while i < len
            invariant
                i <= len,
                len == recs.len(),
                self.compositors@ == recs.subrange(i as int, len as int),
                self.compositions == old(self).compositions,
                forall|a: int, b: int|
                    0 <= a < b < recs.len() && (#[trigger] recs[a]).is_active()
                        && (#[trigger] recs[b]).is_active() ==> !(recs[a].id_view()
                        == recs[b].id_view() && recs[a].rate() == recs[b].rate()),
                forall|a: int|
                    0 <= a < kept@.len() ==> (#[trigger] kept@[a]).is_active() && exists|j: int|
                        0 <= j < i && recs[j] == kept@[a],
                forall|j: int|
                    0 <= j < i && (#[trigger] recs[j]).is_active() ==> kept@.contains(recs[j]),
                forall|a: int, b: int|
                    0 <= a < b < kept@.len() ==> !((#[trigger] kept@[a]).id_view()
                        == (#[trigger] kept@[b]).id_view() && kept@[a].rate() == kept@[b].rate()),
            decreases len - i,
        {
            let d = self.compositors.remove(0);
            proof {
                assert(d == recs[i as int]);
                assert(self.compositors@ =~= recs.subrange(i + 1, len as int));
            }
            let keep = match d.state {
                CompositorState::Active(_) => true,
                CompositorState::Killed => false,
            };
            let ghost old_kept = kept@;
            if keep {
                kept.push(d);
                proof {
                    assert forall|a: int, b: int|
                        0 <= a < b < kept@.len() implies !((#[trigger] kept@[a]).id_view()
                            == (#[trigger] kept@[b]).id_view() && kept@[a].rate()
                            == kept@[b].rate()) by {
                        if b == old_kept.len() {
                            assert(kept@[a] == old_kept[a]);
                            let j = choose|j: int| 0 <= j < i && recs[j] == old_kept[a];
                            assert(recs[j].is_active() && recs[i as int].is_active());
                        } else {
                            assert(kept@[a] == old_kept[a] && kept@[b] == old_kept[b]);
                        }
                    }
                    assert forall|a: int| 0 <= a < kept@.len() implies (#[trigger] kept@[a]).is_active()
                        && exists|j: int| 0 <= j < i + 1 && recs[j] == kept@[a] by {
                        if a < old_kept.len() {
                            assert(kept@[a] == old_kept[a]);
                            let j = choose|j: int| 0 <= j < i && recs[j] == old_kept[a];
                            assert(recs[j] == kept@[a]);
                        } else {
                            assert(recs[i as int] == kept@[a]);
                        }
                    }
                    assert forall|j: int| 0 <= j < i + 1 && (#[trigger] recs[j]).is_active()
                        implies kept@.contains(recs[j]) by {
                        if j < i {
                            let a = choose|a: int| 0 <= a < old_kept.len() && old_kept[a] == recs[j];
                            assert(kept@[a] == recs[j]);
                        } else {
                            assert(kept@[old_kept.len() as int] == recs[j]);
                        }
                    }
                }
            } else {
                proof {
                    assert forall|a: int| 0 <= a < kept@.len() implies (#[trigger] kept@[a]).is_active()
                        && exists|j: int| 0 <= j < i + 1 && recs[j] == kept@[a] by {
                        let j = choose|j: int| 0 <= j < i && recs[j] == kept@[a];
                        assert(recs[j] == kept@[a]);
                    }
                }
            }
            i += 1;
        }
        self.compositors = kept;
        proof {
            assert(self.ids() =~= old(self).ids());
            assert forall|a: int| 0 <= a < self.records().len() implies (#[trigger] self.records()[a]).is_active()
                && old(self).records().contains(self.records()[a]) by {
                let j = choose|j: int| 0 <= j < len && recs[j] == self.records()[a];
            }
        }
    }
}

} // verus!
