//! The contiguity stage of memory retrieval: starting from the events found
//! by similarity, follow "next event" links layer by layer and take in
//! neighbouring events until the budget is spent.
//!
//! The walk asks the caller to fetch the outgoing links of one event at a
//! time; the caller offers each linked event back, and the walk says whether
//! it is wanted.  Each admitted event records the layer it was found in,
//! from which the caller weighs it.

use vstd::prelude::*;

use crate::graph::node::string_views;
use crate::text::str_eq;

verus! {

broadcast use vstd::string::group_string_axioms;

/// What the walk needs next.
#[derive(Debug, Clone, PartialEq, Eq)]
pub enum WalkStep {
    /// The outgoing "next event" links of this event.
    FetchLinks(String),
    /// Nothing: the budget is spent or no layer is left.
    Done,
}

/// The state of a contiguity walk.
pub struct ContiguityWalk {
    seen: Vec<String>,
    seed_count: usize,
    layer: Vec<String>,
    pos: usize,
    next: Vec<String>,
    admitted: Vec<(String, usize)>,
    budget: usize,
    distance: usize,
    fetches: Ghost<nat>,
}

impl ContiguityWalk {
    /// Ids of the seeds and of the admitted events, in order.
    pub closed spec fn seen_ids(&self) -> Seq<Seq<char>> {
        string_views(self.seen@)
    }

    /// The admitted events and the layer each was found in.
    pub closed spec fn admitted_view(&self) -> Seq<(Seq<char>, usize)> {
        self.admitted@.map_values(|a: (String, usize)| (a.0@, a.1))
    }

    /// The number of seeds.
    pub closed spec fn seeds(&self) -> nat {
        self.seed_count as nat
    }

    /// The most events the walk admits.
    pub closed spec fn limit(&self) -> nat {
        self.budget as nat
    }

    /// How many link fetches the walk has asked for.
    pub closed spec fn fetch_count(&self) -> nat {
        self.fetches@
    }

    /// The layer the walk is in (1 for the seeds' neighbours).
    pub closed spec fn layer_number(&self) -> nat {
        self.distance as nat
    }

    /// The events of the current layer whose links are still to be fetched,
    /// in order.
    pub closed spec fn current_queue(&self) -> Seq<Seq<char>> {
        string_views(self.layer@).skip(self.pos as int)
    }

    /// The events taken in during the current layer; their links are
    /// fetched in the next layer, in the order they were taken in.
    pub closed spec fn next_queue(&self) -> Seq<Seq<char>> {
        string_views(self.next@)
    }

    /// The walk's bookkeeping holds together.
    pub closed spec fn wf(&self) -> bool {
        &&& self.admitted@.len() <= self.budget
        &&& self.budget < usize::MAX
        &&& self.seen@.len() == self.seed_count + self.admitted@.len()
        &&& forall|i: int|
            0 <= i < self.admitted@.len() ==> self.seen@[self.seed_count + i]@ == (
            #[trigger] self.admitted@[i]).0@
        &&& forall|i: int|
            0 <= i < self.admitted@.len() ==> !string_views(self.seen@).take(
                self.seed_count + i,
            ).contains((#[trigger] self.admitted@[i]).0@)
        &&& self.pos <= self.layer@.len()
        &&& self.fetches@ + (self.layer@.len() - self.pos) + self.next@.len() == self.seed_count
            + self.admitted@.len()
        &&& 1 <= self.distance
        &&& self.distance - 1 + self.next@.len() <= self.admitted@.len()
        &&& forall|i: int| 0 <= i < self.admitted@.len() ==> (#[trigger] self.admitted@[i]).1 <= self.distance
        &&& forall|i: int|
            0 <= i < self.layer@.len() ==> string_views(self.seen@).contains((#[trigger] self.layer@[i])@)
        &&& forall|i: int|
            0 <= i < self.next@.len() ==> string_views(self.seen@).contains((#[trigger] self.next@[i])@)
    }

    /// A walk from the events found by similarity that admits at most
    /// `budget` more events.
    pub fn new(seeds: Vec<String>, budget: usize) -> (w: ContiguityWalk)
        requires
            budget < usize::MAX,
        ensures
            w.wf(),
            w.seen_ids() == string_views(seeds@),
            w.seeds() == seeds@.len(),
            w.admitted_view().len() == 0,
            w.limit() == budget,
            w.fetch_count() == 0,
            w.layer_number() == 1,
            w.current_queue() == string_views(seeds@),
            w.next_queue().len() == 0,
    {
        let mut seen: Vec<String> = Vec::new();
        let mut i: usize = 0;
        while i < seeds.len()
            invariant
                0 <= i <= seeds@.len(),
                string_views(seen@) == string_views(seeds@.take(i as int)),
            decreases seeds.len() - i,
        {
            let ghost before = seen@;
            seen.push(seeds[i].clone());
            proof {
                assert(string_views(seen@) =~= string_views(before).push(seeds@[i as int]@));
                assert(string_views(seeds@.take(i + 1)) =~= string_views(seeds@.take(i as int)).push(
                    seeds@[i as int]@,
                ));
            }
            i = i + 1;
        }
        assert(seeds@.take(seeds@.len() as int) =~= seeds@);
        let n = seeds.len();
        let w = ContiguityWalk {
            seen,
            seed_count: n,
            layer: seeds,
            pos: 0,
            next: Vec::new(),
            admitted: Vec::new(),
            budget,
            distance: 1,
            fetches: Ghost(0),
        };
        assert(w.admitted_view() =~= Seq::<(Seq<char>, usize)>::empty());
        assert forall|i: int| 0 <= i < w.layer@.len() implies string_views(w.seen@).contains(
            (#[trigger] w.layer@[i])@,
        ) by {
            assert(string_views(w.seen@)[i] == w.layer@[i]@);
        }
        w
    }

    /// The next event whose links are wanted, or `Done`.  Moving past the
    /// last event of a layer starts the layer of the events admitted from
    /// it.
    pub fn next_step(&mut self) -> (s: WalkStep)
        requires
            old(self).wf(),
        ensures
            final(self).wf(),
            final(self).seen_ids() == old(self).seen_ids(),
            final(self).admitted_view() == old(self).admitted_view(),
            final(self).seeds() == old(self).seeds(),
            final(self).limit() == old(self).limit(),
            final(self).layer_number() >= old(self).layer_number(),
            s is Done ==> final(self).fetch_count() == old(self).fetch_count(),
            s matches WalkStep::FetchLinks(id) ==> final(self).fetch_count() == old(self).fetch_count() + 1
                && final(self).seen_ids().contains(id@),
            old(self).admitted_view().len() >= old(self).limit() ==> s is Done,
            s is Done ==> final(self).current_queue() == old(self).current_queue()
                && final(self).next_queue() == old(self).next_queue()
                && final(self).layer_number() == old(self).layer_number(),
            old(self).admitted_view().len() < old(self).limit() ==> if old(self).current_queue().len()
                > 0 {
                &&& s matches WalkStep::FetchLinks(id) && id@ == old(self).current_queue()[0]
                &&& final(self).current_queue() == old(self).current_queue().drop_first()
                &&& final(self).next_queue() == old(self).next_queue()
                &&& final(self).layer_number() == old(self).layer_number()
            } else if old(self).next_queue().len() > 0 {
                &&& s matches WalkStep::FetchLinks(id) && id@ == old(self).next_queue()[0]
                &&& final(self).current_queue() == old(self).next_queue().drop_first()
                &&& final(self).next_queue().len() == 0
                &&& final(self).layer_number() == old(self).layer_number() + 1
            } else {
                s is Done
            },
    {
        if self.admitted.len() >= self.budget {
            return WalkStep::Done;
        }
        if self.pos == self.layer.len() {
            if self.next.len() == 0 {
                return WalkStep::Done;
            }
            let mut fresh: Vec<String> = Vec::new();
            std::mem::swap(&mut fresh, &mut self.next);
            self.layer = fresh;
            self.pos = 0;
            self.distance = self.distance + 1;
        }
        let id = self.layer[self.pos].clone();
        self.pos = self.pos + 1;
        proof {
            self.fetches = Ghost(self.fetches@ + 1);
        }
        WalkStep::FetchLinks(id)
    }

    /// Whether a linked event is admitted: budget is left and it is neither
    /// a seed nor admitted already.
    pub fn wants(&self, id: &str) -> (r: bool)
        requires
            self.wf(),
        ensures
            r == (self.admitted_view().len() < self.limit() && !self.seen_ids().contains(id@)),
    {
        if self.admitted.len() >= self.budget {
            return false;
        }
        let mut k: usize = 0;
        while k < self.seen.len()
            invariant
                0 <= k <= self.seen@.len(),
                forall|j: int| 0 <= j < k ==> self.seen@[j]@ != id@,
            decreases self.seen.len() - k,
        {
            if str_eq(self.seen[k].as_str(), id) {
                assert(string_views(self.seen@)[k as int] == id@);
                return false;
            }
            k = k + 1;
        }
        assert forall|j: int| 0 <= j < string_views(self.seen@).len() implies string_views(
            self.seen@,
        )[j] != id@ by {
            assert(string_views(self.seen@)[j] == self.seen@[j]@);
        }
        true
    }

    /// Admits a wanted event in the current layer; its links are followed in
    /// the next layer.
    pub fn take_event(&mut self, id: String)
        requires
            old(self).wf(),
            old(self).admitted_view().len() < old(self).limit(),
            !old(self).seen_ids().contains(id@),
        ensures
            final(self).wf(),
            final(self).admitted_view() == old(self).admitted_view().push(
                (id@, old(self).layer_number() as usize),
            ),
            final(self).seen_ids() == old(self).seen_ids().push(id@),
            final(self).seeds() == old(self).seeds(),
            final(self).limit() == old(self).limit(),
            final(self).fetch_count() == old(self).fetch_count(),
            final(self).layer_number() == old(self).layer_number(),
            final(self).current_queue() == old(self).current_queue(),
            final(self).next_queue() == old(self).next_queue().push(id@),
    {
        let ghost old_seen = string_views(self.seen@);
        let ghost old_admitted = self.admitted_view();
        let ghost old_layer = self.layer@;
        let ghost old_next = self.next@;
        self.seen.push(id.clone());
        self.next.push(id.clone());
        self.admitted.push((id, self.distance));
        proof {
            assert(string_views(self.seen@) =~= old_seen.push(id@));
            assert(self.admitted_view() =~= old_admitted.push((id@, self.distance)));
            let n = self.admitted@.len() - 1;
            assert(string_views(self.seen@).take(self.seed_count + n) =~= old_seen);
            assert forall|i: int| 0 <= i < self.layer@.len() implies string_views(self.seen@).contains(
                (#[trigger] self.layer@[i])@,
            ) by {
                assert(old_seen.contains(old_layer[i]@));
                let j = choose|j: int| 0 <= j < old_seen.len() && old_seen[j] == old_layer[i]@;
                assert(string_views(self.seen@)[j] == old_seen[j]);
            }
            assert forall|i: int| 0 <= i < self.next@.len() implies string_views(self.seen@).contains(
                (#[trigger] self.next@[i])@,
            ) by {
                if i < old_next.len() {
                    assert(old_seen.contains(old_next[i]@));
                    let j = choose|j: int| 0 <= j < old_seen.len() && old_seen[j] == old_next[i]@;
                    assert(string_views(self.seen@)[j] == old_seen[j]);
                } else {
                    assert(string_views(self.seen@)[old_seen.len() as int] == id@);
                }
            }
            assert forall|i: int| 0 <= i < self.admitted@.len() implies !string_views(self.seen@).take(
                self.seed_count + i,
            ).contains((#[trigger] self.admitted@[i]).0@) by {
                if i < n {
                    assert(string_views(self.seen@).take(self.seed_count + i) =~= old_seen.take(
                        self.seed_count + i,
                    ));
                }
            }
        }
    }

    /// The walk asks for at most one link fetch per seed and per event it
    /// took in, so never more than the seeds plus the budget.
    pub proof fn lemma_fetches_bounded(&self)
        requires
            self.wf(),
        ensures
            self.fetch_count() <= self.seeds() + self.admitted_view().len(),
            self.admitted_view().len() <= self.limit(),
    {
    }

    /// Every event the walk took in is new: it is none of the seeds and none
    /// of the events taken in before it.
    pub proof fn lemma_taken_events_are_new(&self, i: int, j: int)
        requires
            self.wf(),
            0 <= i < self.admitted_view().len(),
        ensures
            0 <= j < self.seeds() ==> self.seen_ids()[j] != self.admitted_view()[i].0,
            0 <= j < i ==> self.admitted_view()[j].0 != self.admitted_view()[i].0,
    {
        let prefix = string_views(self.seen@).take(self.seed_count + i);
        assert(self.admitted_view()[i].0 == self.admitted@[i].0@);
        assert(!prefix.contains(self.admitted@[i].0@));
        if 0 <= j < self.seeds() {
            assert(prefix[j] == self.seen_ids()[j]);
        }
        if 0 <= j < i {
            assert(self.seen@[self.seed_count + j]@ == self.admitted@[j].0@);
            assert(prefix[self.seed_count + j] == self.admitted@[j].0@);
        }
    }

    /// The layer the walk is in: 1 for the seeds' neighbours.
    pub fn layer(&self) -> (d: usize)
        ensures
            d == self.layer_number(),
    {
        self.distance
    }

    /// The admitted events with the layer each was found in, in the order
    /// they were admitted.
    pub fn into_admitted(self) -> (out: Vec<(String, usize)>)
        ensures
            out@.map_values(|a: (String, usize)| (a.0@, a.1)) == self.admitted_view(),
    {
        self.admitted
    }
}

} // verus!
