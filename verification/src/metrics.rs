//! Runtime counters of the session dispatcher.
//!
//! Totals count events; per-session counters record how often each session
//! hit a busy or too-many-sessions condition; they are kept as a list of
//! (id, count) pairs in which each id occurs once.  A snapshot lists those
//! sessions busiest first, ties broken by session id, and the laws at the
//! end relate snapshots to the history of hits that produced them.

use vstd::prelude::*;

use crate::text::{chars_of, to_owned_string, str_eq};

verus! {

broadcast use {vstd::string::group_string_axioms, vstd::seq_lib::group_to_multiset_ensures};

/// Per-session busy count in a snapshot.
#[derive(Debug, Clone)]
pub struct SessionBusyMetric {
    pub session_id: String,
    pub count: u64,
}

/// Totals and busiest sessions at one moment.
#[derive(Debug, Clone)]
pub struct RuntimeMetricsSnapshot {
    pub dispatch_total: u64,
    pub session_busy_total: u64,
    pub too_many_sessions_total: u64,
    pub internal_error_total: u64,
    pub session_busy_top: Vec<SessionBusyMetric>,
}

/// Strict lexicographic order of character sequences, which is the order of
/// `String` (UTF-8 byte order is code point order).
pub open spec fn lex_lt(a: Seq<char>, b: Seq<char>) -> bool
    decreases a.len(),
{
    if a.len() == 0 {
        b.len() > 0
    } else if b.len() == 0 {
        false
    } else if a[0] != b[0] {
        a[0] < b[0]
    } else {
        lex_lt(a.drop_first(), b.drop_first())
    }
}

/// `x` may be listed before `y`: a higher count, or the same count and an
/// id that is not greater.
pub open spec fn ranks_before(x: (Seq<char>, u64), y: (Seq<char>, u64)) -> bool {
    x.1 > y.1 || (x.1 == y.1 && !lex_lt(y.0, x.0))
}

/// The entries are listed busiest first, ties by id.
pub open spec fn ranked(s: Seq<(Seq<char>, u64)>) -> bool {
    forall|i: int, j: int| 0 <= i < j < s.len() ==> ranks_before(#[trigger] s[i], #[trigger] s[j])
}

/// No id occurs twice.
pub open spec fn unique_ids(s: Seq<(Seq<char>, u64)>) -> bool {
    forall|i: int, j: int| 0 <= i < j < s.len() ==> (#[trigger] s[i]).0 != (#[trigger] s[j]).0
}

/// Index of the entry with id `id`.
pub open spec fn find_session(s: Seq<(Seq<char>, u64)>, id: Seq<char>) -> Option<nat>
    decreases s.len(),
{
    if s.len() == 0 {
        None
    } else if s.last().0 == id {
        Some((s.len() - 1) as nat)
    } else {
        find_session(s.drop_last(), id)
    }
}

/// The entries after one more hit of session `id`.
pub open spec fn bump(s: Seq<(Seq<char>, u64)>, id: Seq<char>) -> Seq<(Seq<char>, u64)> {
    match find_session(s, id) {
        Some(i) => s.update(i as int, (id, s[i as int].1.wrapping_add(1))),
        None => s.push((id, 1u64)),
    }
}

pub proof fn lemma_lex_irreflexive(a: Seq<char>)
    ensures
        !lex_lt(a, a),
    decreases a.len(),
{
    if a.len() > 0 {
        lemma_lex_irreflexive(a.drop_first());
    }
}

pub proof fn lemma_lex_total(a: Seq<char>, b: Seq<char>)
    ensures
        lex_lt(a, b) || lex_lt(b, a) || a == b,
    decreases a.len(),
{
    if a.len() > 0 && b.len() > 0 && a[0] == b[0] {
        lemma_lex_total(a.drop_first(), b.drop_first());
        if a.drop_first() == b.drop_first() {
            assert(a =~= seq![a[0]] + a.drop_first());
            assert(b =~= seq![b[0]] + b.drop_first());
        }
    } else if a.len() == 0 && b.len() == 0 {
        assert(a =~= b);
    }
}

pub proof fn lemma_lex_asymmetric(a: Seq<char>, b: Seq<char>)
    ensures
        !(lex_lt(a, b) && lex_lt(b, a)),
    decreases a.len(),
{
    if a.len() > 0 && b.len() > 0 && a[0] == b[0] {
        lemma_lex_asymmetric(a.drop_first(), b.drop_first());
    }
}

pub proof fn lemma_lex_transitive(a: Seq<char>, b: Seq<char>, c: Seq<char>)
    requires
        lex_lt(a, b),
        lex_lt(b, c),
    ensures
        lex_lt(a, c),
    decreases a.len(),
{
    if a.len() > 0 && b.len() > 0 && c.len() > 0 && a[0] == b[0] && b[0] == c[0] {
        lemma_lex_transitive(a.drop_first(), b.drop_first(), c.drop_first());
    }
}

/// Any two entries can be ordered.
pub proof fn lemma_ranks_total(x: (Seq<char>, u64), y: (Seq<char>, u64))
    ensures
        ranks_before(x, y) || ranks_before(y, x),
{
    lemma_lex_asymmetric(x.0, y.0);
}

pub proof fn lemma_ranks_transitive(x: (Seq<char>, u64), y: (Seq<char>, u64), z: (Seq<char>, u64))
    requires
        ranks_before(x, y),
        ranks_before(y, z),
    ensures
        ranks_before(x, z),
{
    if x.1 == z.1 {
        // x.1 == y.1 == z.1
        lemma_lex_total(x.0, y.0);
        lemma_lex_total(y.0, z.0);
        if lex_lt(z.0, x.0) {
            if x.0 == y.0 {
            } else if y.0 == z.0 {
            } else {
                lemma_lex_transitive(x.0, y.0, z.0);
                lemma_lex_asymmetric(x.0, z.0);
            }
        }
    }
}

/// Whether `a` sorts strictly before `b` as strings.
pub fn str_lt(a: &str, b: &str) -> (r: bool)
    ensures
        r == lex_lt(a@, b@),
{
    let va = chars_of(a);
    let vb = chars_of(b);
    let mut i: usize = 0;
    assert(a@.skip(0) =~= a@);
    assert(b@.skip(0) =~= b@);
    while i < va.len() && i < vb.len()
        invariant
            va@ == a@,
            vb@ == b@,
            0 <= i <= va@.len(),
            i <= vb@.len(),
            lex_lt(a@, b@) == lex_lt(a@.skip(i as int), b@.skip(i as int)),
        decreases va.len() - i,
    {
        assert(a@.skip(i as int).drop_first() =~= a@.skip(i + 1));
        assert(b@.skip(i as int).drop_first() =~= b@.skip(i + 1));
        assert(a@.skip(i as int)[0] == va@[i as int]);
        assert(b@.skip(i as int)[0] == vb@[i as int]);
        if va[i] != vb[i] {
            return va[i] < vb[i];
        }
        i = i + 1;
    }
    assert(a@.skip(i as int).len() == 0 || b@.skip(i as int).len() == 0);
    i == va.len() && i < vb.len()
}

/// Process-wide runtime counters.
pub struct RuntimeMetrics {
    dispatch_total: u64,
    session_busy_total: u64,
    too_many_sessions_total: u64,
    internal_error_total: u64,
    session_busy_by_session: Vec<(String, u64)>,
}

impl RuntimeMetrics {
    pub closed spec fn dispatches(&self) -> u64 {
        self.dispatch_total
    }

    pub closed spec fn busy(&self) -> u64 {
        self.session_busy_total
    }

    pub closed spec fn too_many(&self) -> u64 {
        self.too_many_sessions_total
    }

    pub closed spec fn internal_errors(&self) -> u64 {
        self.internal_error_total
    }

    /// Per-session hit counts, each session once.
    pub closed spec fn sessions(&self) -> Seq<(Seq<char>, u64)> {
        self.session_busy_by_session@.map_values(|e: (String, u64)| (e.0@, e.1))
    }

    pub open spec fn wf(&self) -> bool {
        unique_ids(self.sessions())
    }

    /// All counters at zero.
    pub fn new() -> (m: RuntimeMetrics)
        ensures
            m.wf(),
            m.dispatches() == 0,
            m.busy() == 0,
            m.too_many() == 0,
            m.internal_errors() == 0,
            m.sessions().len() == 0,
            m.sessions() == replay(Seq::empty()),
    {
        let m = RuntimeMetrics {
            dispatch_total: 0,
            session_busy_total: 0,
            too_many_sessions_total: 0,
            internal_error_total: 0,
            session_busy_by_session: Vec::new(),
        };
        assert(m.sessions() =~= Seq::<(Seq<char>, u64)>::empty());
        m
    }

    /// Counts one dispatched message (wrapping, as an atomic add does).
    pub fn record_dispatch(&mut self)
        ensures
            final(self).dispatches() == old(self).dispatches().wrapping_add(1),
            final(self).busy() == old(self).busy(),
            final(self).too_many() == old(self).too_many(),
            final(self).internal_errors() == old(self).internal_errors(),
            final(self).sessions() == old(self).sessions(),
    {
        self.dispatch_total = self.dispatch_total.wrapping_add(1);
    }

    /// Counts a busy rejection for `session_id`.
    pub fn record_session_busy(&mut self, session_id: &str)
        requires
            old(self).wf(),
        ensures
            final(self).wf(),
            final(self).busy() == old(self).busy().wrapping_add(1),
            final(self).dispatches() == old(self).dispatches(),
            final(self).too_many() == old(self).too_many(),
            final(self).internal_errors() == old(self).internal_errors(),
            final(self).sessions() == bump(old(self).sessions(), session_id@),
    {
        self.session_busy_total = self.session_busy_total.wrapping_add(1);
        self.record_session_hotspot(session_id);
    }

    /// Counts a too-many-sessions rejection for `session_id`.
    pub fn record_too_many_sessions(&mut self, session_id: &str)
        requires
            old(self).wf(),
        ensures
            final(self).wf(),
            final(self).too_many() == old(self).too_many().wrapping_add(1),
            final(self).dispatches() == old(self).dispatches(),
            final(self).busy() == old(self).busy(),
            final(self).internal_errors() == old(self).internal_errors(),
            final(self).sessions() == bump(old(self).sessions(), session_id@),
    {
        self.too_many_sessions_total = self.too_many_sessions_total.wrapping_add(1);
        self.record_session_hotspot(session_id);
    }

    /// Counts an internal error.
    pub fn record_internal_error(&mut self)
        ensures
            final(self).internal_errors() == old(self).internal_errors().wrapping_add(1),
            final(self).dispatches() == old(self).dispatches(),
            final(self).busy() == old(self).busy(),
            final(self).too_many() == old(self).too_many(),
            final(self).sessions() == old(self).sessions(),
    {
        self.internal_error_total = self.internal_error_total.wrapping_add(1);
    }

    fn record_session_hotspot(&mut self, session_id: &str)
        requires
            old(self).wf(),
        ensures
            final(self).wf(),
            final(self).dispatches() == old(self).dispatches(),
            final(self).busy() == old(self).busy(),
            final(self).too_many() == old(self).too_many(),
            final(self).internal_errors() == old(self).internal_errors(),
            final(self).sessions() == bump(old(self).sessions(), session_id@),
    {
        let ghost s = self.sessions();
        let n = self.session_busy_by_session.len();
        let mut i = n;
        assert(s.take(n as int) =~= s);
        while i > 0
            invariant
                s == self.sessions(),
                n == s.len(),
                0 <= i <= n,
                find_session(s.take(i as int), session_id@) == find_session(s, session_id@),
                s == old(self).sessions(),
                self.dispatch_total == old(self).dispatch_total,
                self.session_busy_total == old(self).session_busy_total,
                self.too_many_sessions_total == old(self).too_many_sessions_total,
                self.internal_error_total == old(self).internal_error_total,
                unique_ids(s),
            decreases i,
        {
            assert(s.take(i as int).last() == s[i - 1]);
            assert(s[i - 1].0 == self.session_busy_by_session@[i - 1].0@);
            if str_eq(self.session_busy_by_session[i - 1].0.as_str(), session_id) {
                let count = self.session_busy_by_session[i - 1].1;
                let id = self.session_busy_by_session[i - 1].0.clone();
                self.session_busy_by_session.set(i - 1, (id, count.wrapping_add(1)));
                proof {
                    assert(self.sessions() =~= s.update(i - 1, (session_id@, s[i - 1].1.wrapping_add(1))));
                }
                return;
            }
            assert(s.take(i as int).drop_last() =~= s.take(i - 1));
            i = i - 1;
        }
        assert(s.take(0) =~= Seq::<(Seq<char>, u64)>::empty());
        proof {
            lemma_find_none(s, session_id@);
        }
        self.session_busy_by_session.push((to_owned_string(session_id), 1));
        proof {
            assert(self.sessions() =~= s.push((session_id@, 1u64)));
        }
    }

    /// The totals and the busiest sessions: all of them when `top_n` is 0,
    /// else the first `top_n`.
    pub fn snapshot(&self, top_n: usize) -> (snap: RuntimeMetricsSnapshot)
        requires
            self.wf(),
        ensures
            snap.dispatch_total == self.dispatches(),
            snap.session_busy_total == self.busy(),
            snap.too_many_sessions_total == self.too_many(),
            snap.internal_error_total == self.internal_errors(),
            sorted_sessions(self.sessions()).to_multiset() == self.sessions().to_multiset(),
            ranked(sorted_sessions(self.sessions())),
            unique_ids(metric_views(snap.session_busy_top@)),
            metric_views(snap.session_busy_top@) == if top_n > 0 && top_n
                < self.sessions().len() {
                sorted_sessions(self.sessions()).take(top_n as int)
            } else {
                sorted_sessions(self.sessions())
            },
    {
        let ghost all = self.sessions();
        let mut remaining: Vec<(String, u64)> = Vec::new();
        let mut c: usize = 0;
        while c < self.session_busy_by_session.len()
            invariant
                0 <= c <= self.session_busy_by_session@.len(),
                all == self.sessions(),
                entry_views(remaining@) == all.take(c as int),
            decreases self.session_busy_by_session.len() - c,
        {
            let entry = &self.session_busy_by_session[c];
            let ghost before = entry_views(remaining@);
            remaining.push((entry.0.clone(), entry.1));
            assert(all[c as int] == (self.session_busy_by_session@[c as int].0@, self.session_busy_by_session@[c as int].1));
            assert(entry_views(remaining@) =~= before.push(all[c as int]));
            assert(all.take(c + 1) =~= all.take(c as int).push(all[c as int]));
            c = c + 1;
        }
        let mut out: Vec<SessionBusyMetric> = Vec::new();
        proof {
            assert(all.take(all.len() as int) =~= all);
            assert(metric_views(out@) =~= Seq::<(Seq<char>, u64)>::empty());
        }
        while remaining.len() > 0
            invariant
                ranked(metric_views(out@)),
                forall|a: int, b: int|
                    0 <= a < metric_views(out@).len() && 0 <= b < entry_views(remaining@).len()
                        ==> ranks_before(
                        #[trigger] metric_views(out@)[a],
                        #[trigger] entry_views(remaining@)[b],
                    ),
                metric_views(out@).to_multiset().add(entry_views(remaining@).to_multiset())
                    == all.to_multiset(),
            decreases remaining.len(),
        {
            let ghost rem = entry_views(remaining@);
            let ghost done = metric_views(out@);
            let mut best: usize = 0;
            let mut j: usize = 1;
            proof {
                lemma_lex_irreflexive(rem[0].0);
            }
            while j < remaining.len()
                invariant
                    rem == entry_views(remaining@),
                    rem.len() > 0,
                    0 <= best < j <= rem.len(),
                    forall|k: int| 0 <= k < j ==> ranks_before(rem[best as int], #[trigger] rem[k]),
                decreases remaining.len() - j,
            {
                let cj = remaining[j].1;
                let cb = remaining[best].1;
                let better = cj > cb || (cj == cb && str_lt(
                    remaining[j].0.as_str(),
                    remaining[best].0.as_str(),
                ));
                proof {
                    assert(rem[j as int] == (remaining@[j as int].0@, cj));
                    assert(rem[best as int] == (remaining@[best as int].0@, cb));
                    lemma_lex_total(rem[j as int].0, rem[best as int].0);
                    lemma_lex_irreflexive(rem[best as int].0);
                }
                proof {
                    if better {
                        if cj > cb {
                            assert(ranks_before(rem[j as int], rem[best as int]));
                        } else {
                            assert(lex_lt(rem[j as int].0, rem[best as int].0));
                            lemma_lex_asymmetric(rem[j as int].0, rem[best as int].0);
                            assert(ranks_before(rem[j as int], rem[best as int]));
                        }
                    }
                }
                if better {
                    proof {
                        assert forall|k: int| 0 <= k < j + 1 implies ranks_before(
                            rem[j as int],
                            #[trigger] rem[k],
                        ) by {
                            if k < j {
                                lemma_ranks_transitive(rem[j as int], rem[best as int], rem[k]);
                            } else {
                                lemma_lex_irreflexive(rem[j as int].0);
                            }
                        }
                    }
                    best = j;
                } else {
                    proof {
                        lemma_lex_asymmetric(rem[j as int].0, rem[best as int].0);
                        lemma_ranks_total(rem[j as int], rem[best as int]);
                    }
                }
                j = j + 1;
            }
            let picked = remaining.remove(best);
            proof {
                assert(entry_views(remaining@) =~= rem.remove(best as int));
                vstd::seq_lib::to_multiset_remove(rem, best as int);
            }
            out.push(SessionBusyMetric { session_id: picked.0, count: picked.1 });
            proof {
                let item = rem[best as int];
                assert(metric_views(out@) =~= done.push(item));
                assert forall|a: int, b: int|
                    0 <= a < b < metric_views(out@).len() implies ranks_before(
                    #[trigger] metric_views(out@)[a],
                    #[trigger] metric_views(out@)[b],
                ) by {
                    if b == done.len() {
                        assert(metric_views(out@)[a] == done[a]);
                        assert(rem[best as int] == item);
                    }
                }
                assert forall|a: int, b: int|
                    0 <= a < metric_views(out@).len() && 0 <= b < entry_views(remaining@).len()
                        implies ranks_before(
                    #[trigger] metric_views(out@)[a],
                    #[trigger] entry_views(remaining@)[b],
                ) by {
                    let k = if b < best { b } else { b + 1 };
                    assert(entry_views(remaining@)[b] == rem[k]);
                    if a < done.len() {
                        assert(metric_views(out@)[a] == done[a]);
                    }
                }
                assert(metric_views(out@).to_multiset() =~= done.to_multiset().insert(item));
                assert(done.to_multiset().insert(item).add(rem.remove(best as int).to_multiset())
                    =~= done.to_multiset().add(rem.to_multiset()));
            }
        }
        let ghost full = metric_views(out@);
        proof {
            assert(entry_views(remaining@) =~= Seq::<(Seq<char>, u64)>::empty());
            assert(full.to_multiset() =~= all.to_multiset());
            lemma_sorted_sessions(all, full);
            lemma_permuted_counts(all, full);
        }
        if top_n > 0 && top_n < out.len() {
            out.truncate(top_n);
            proof {
                assert(metric_views(out@) =~= full.take(top_n as int));
                assert forall|x: int, y: int| 0 <= x < y < metric_views(out@).len() implies (
                #[trigger] metric_views(out@)[x]).0 != (#[trigger] metric_views(out@)[y]).0 by {
                    assert(full[x].0 != full[y].0);
                }
            }
        }
        RuntimeMetricsSnapshot {
            dispatch_total: self.dispatch_total,
            session_busy_total: self.session_busy_total,
            too_many_sessions_total: self.too_many_sessions_total,
            internal_error_total: self.internal_error_total,
            session_busy_top: out,
        }
    }
}

/// The (id, count) pairs of snapshot entries.
pub open spec fn metric_views(v: Seq<SessionBusyMetric>) -> Seq<(Seq<char>, u64)> {
    v.map_values(|m: SessionBusyMetric| (m.session_id@, m.count))
}

/// The (id, count) pairs of stored entries.
pub open spec fn entry_views(v: Seq<(String, u64)>) -> Seq<(Seq<char>, u64)> {
    v.map_values(|e: (String, u64)| (e.0@, e.1))
}

/// The hit count that the entries record for session `id` (0 if absent).
pub open spec fn count_of(s: Seq<(Seq<char>, u64)>, id: Seq<char>) -> u64 {
    match find_session(s, id) {
        Some(i) => s[i as int].1,
        None => 0,
    }
}

/// Whether the entries hold session `id`.
pub open spec fn has_session(s: Seq<(Seq<char>, u64)>, id: Seq<char>) -> bool {
    find_session(s, id) is Some
}

/// The entries after the hits in `history`, in order, starting from none:
/// what `record_session_busy` and `record_too_many_sessions` build.
pub open spec fn replay(history: Seq<Seq<char>>) -> Seq<(Seq<char>, u64)>
    decreases history.len(),
{
    if history.len() == 0 {
        Seq::empty()
    } else {
        bump(replay(history.drop_last()), history.last())
    }
}

/// How often `id` occurs in `history`.
pub open spec fn occurrences(history: Seq<Seq<char>>, id: Seq<char>) -> nat
    decreases history.len(),
{
    if history.len() == 0 {
        0
    } else {
        occurrences(history.drop_last(), id) + if history.last() == id {
            1nat
        } else {
            0nat
        }
    }
}

/// The last entry for `id` is found, and none is found when there is none.
proof fn lemma_find_spec(s: Seq<(Seq<char>, u64)>, id: Seq<char>)
    ensures
        (find_session(s, id) is None) <==> (forall|k: int| 0 <= k < s.len() ==> (#[trigger] s[k]).0 != id),
        find_session(s, id) matches Some(i) ==> i < s.len() && s[i as int].0 == id,
    decreases s.len(),
{
    if s.len() > 0 {
        lemma_find_spec(s.drop_last(), id);
        if s.last().0 != id {
            assert forall|k: int| 0 <= k < s.len() - 1 implies s[k] == (#[trigger] s.drop_last()[k]) by {}
            if find_session(s.drop_last(), id) is None {
                assert forall|k: int| 0 <= k < s.len() implies (#[trigger] s[k]).0 != id by {
                    if k < s.len() - 1 {
                        assert(s[k] == s.drop_last()[k]);
                    }
                }
            } else {
                let i = find_session(s.drop_last(), id)->0;
                assert(s[i as int] == s.drop_last()[i as int]);
            }
        }
    }
}

/// With distinct ids, the entry for `id` is the one at its position.
proof fn lemma_find_unique(s: Seq<(Seq<char>, u64)>, id: Seq<char>, k: int)
    requires
        unique_ids(s),
        0 <= k < s.len(),
        s[k].0 == id,
    ensures
        find_session(s, id) == Some(k as nat),
{
    lemma_find_spec(s, id);
    let i = find_session(s, id)->0;
    if i != k {
        if i < k {
            assert(s[i as int].0 != s[k].0);
        } else {
            assert(s[k].0 != s[i as int].0);
        }
    }
}

/// One more hit of session `id` raises its count by one (wrapping, as the
/// counters do), records it if it was absent, and leaves every other
/// session's count as it was; ids stay distinct.
pub proof fn lemma_bump_counts(s: Seq<(Seq<char>, u64)>, id: Seq<char>)
    requires
        unique_ids(s),
    ensures
        unique_ids(bump(s, id)),
        count_of(bump(s, id), id) == count_of(s, id).wrapping_add(1),
        has_session(bump(s, id), id),
        forall|other: Seq<char>|
            other != id ==> (count_of(bump(s, id), other) == #[trigger] count_of(s, other) && (
            has_session(bump(s, id), other) <==> has_session(s, other))),
{
    lemma_find_spec(s, id);
    let b = bump(s, id);
    match find_session(s, id) {
        Some(i) => {
            assert forall|x: int, y: int| 0 <= x < y < b.len() implies (#[trigger] b[x]).0 != (
            #[trigger] b[y]).0 by {
                assert(s[x].0 != s[y].0);
            }
            lemma_find_unique(b, id, i as int);
            assert forall|other: Seq<char>| other != id implies (count_of(b, other)
                == #[trigger] count_of(s, other) && (has_session(b, other) <==> has_session(
                s,
                other,
            ))) by {
                lemma_find_spec(s, other);
                lemma_find_spec(b, other);
                match find_session(s, other) {
                    Some(j) => {
                        lemma_find_unique(b, other, j as int);
                    },
                    None => {
                        assert forall|k: int| 0 <= k < b.len() implies (#[trigger] b[k]).0
                            != other by {
                            assert(s[k].0 != other);
                        }
                    },
                }
            }
        },
        None => {
            assert forall|x: int, y: int| 0 <= x < y < b.len() implies (#[trigger] b[x]).0 != (
            #[trigger] b[y]).0 by {
                if y == s.len() {
                    assert(s[x].0 != id);
                } else {
                    assert(s[x].0 != s[y].0);
                }
            }
            lemma_find_unique(b, id, s.len() as int);
            assert forall|other: Seq<char>| other != id implies (count_of(b, other)
                == #[trigger] count_of(s, other) && (has_session(b, other) <==> has_session(
                s,
                other,
            ))) by {
                lemma_find_spec(s, other);
                lemma_find_spec(b, other);
                match find_session(s, other) {
                    Some(j) => {
                        lemma_find_unique(b, other, j as int);
                    },
                    None => {
                        assert forall|k: int| 0 <= k < b.len() implies (#[trigger] b[k]).0
                            != other by {
                            if k < s.len() {
                                assert(s[k].0 != other);
                            }
                        }
                    },
                }
            }
        },
    }
}

/// One more hit extends the history: the entries after `history` then `id`
/// are those after `history`, bumped for `id`.  With `RuntimeMetrics::new`
/// (no entries, the empty history) and the `bump` that each recording call
/// states, the per-session entries of a metrics value are always the replay
/// of the sessions it recorded, in order.
pub proof fn lemma_replay_push(history: Seq<Seq<char>>, id: Seq<char>)
    ensures
        replay(history.push(id)) == bump(replay(history), id),
{
    assert(history.push(id).drop_last() =~= history);
}

/// After any history of hits, starting from no entries, ids are distinct,
/// each session's count is the number of its hits, and exactly the sessions
/// that were hit are held (for histories shorter than the counter's range).
pub proof fn lemma_replay_counts(history: Seq<Seq<char>>, id: Seq<char>)
    requires
        history.len() <= u64::MAX,
    ensures
        unique_ids(replay(history)),
        count_of(replay(history), id) == occurrences(history, id),
        has_session(replay(history), id) <==> occurrences(history, id) > 0,
        occurrences(history, id) <= history.len(),
    decreases history.len(),
{
    if history.len() == 0 {
        let r = replay(history);
        assert(r.len() == 0);
        lemma_find_spec(r, id);
    } else {
        let prev = history.drop_last();
        lemma_replay_counts(prev, id);
        lemma_bump_counts(replay(prev), history.last());
        if history.last() == id {
            assert(count_of(replay(prev), id) < u64::MAX);
        } else {
            assert(count_of(replay(history), id) == count_of(replay(prev), id));
        }
    }
}

/// Entries that hold the same (id, count) pairs as distinct-id entries, in
/// any order, have distinct ids, as many entries, and the same count for
/// every session.
pub proof fn lemma_permuted_counts(s: Seq<(Seq<char>, u64)>, full: Seq<(Seq<char>, u64)>)
    requires
        unique_ids(s),
        full.to_multiset() == s.to_multiset(),
    ensures
        unique_ids(full),
        full.len() == s.len(),
        forall|id: Seq<char>| #[trigger] count_of(full, id) == count_of(s, id),
{
    assert(s.no_duplicates()) by {
        assert forall|i: int, j: int| 0 <= i < s.len() && 0 <= j < s.len() && i != j implies s[i]
            != s[j] by {
            if i < j {
                assert(s[i].0 != s[j].0);
            } else {
                assert(s[j].0 != s[i].0);
            }
        }
    }
    s.lemma_multiset_has_no_duplicates();
    full.lemma_multiset_has_no_duplicates_conv();
    vstd::seq_lib::to_multiset_len(s);
    vstd::seq_lib::to_multiset_len(full);
    assert forall|x: int, y: int| 0 <= x < y < full.len() implies (#[trigger] full[x]).0 != (
    #[trigger] full[y]).0 by {
        if full[x].0 == full[y].0 {
            assert(full.contains(full[x]));
            assert(full.contains(full[y]));
            vstd::seq_lib::to_multiset_contains(full, full[x]);
            vstd::seq_lib::to_multiset_contains(full, full[y]);
            vstd::seq_lib::to_multiset_contains(s, full[x]);
            vstd::seq_lib::to_multiset_contains(s, full[y]);
            let a = choose|a: int| 0 <= a < s.len() && s[a] == full[x];
            let b = choose|b: int| 0 <= b < s.len() && s[b] == full[y];
            assert(full[x] != full[y]);
            if a < b {
                assert(s[a].0 != s[b].0);
            } else {
                assert(s[b].0 != s[a].0);
            }
        }
    }
    assert forall|id: Seq<char>| #[trigger] count_of(full, id) == count_of(s, id) by {
        lemma_find_spec(s, id);
        lemma_find_spec(full, id);
        match find_session(s, id) {
            Some(k) => {
                assert(s.contains(s[k as int]));
                vstd::seq_lib::to_multiset_contains(s, s[k as int]);
                vstd::seq_lib::to_multiset_contains(full, s[k as int]);
                let m = choose|m: int| 0 <= m < full.len() && full[m] == s[k as int];
                lemma_find_unique(full, id, m);
            },
            None => {
                assert forall|k: int| 0 <= k < full.len() implies (#[trigger] full[k]).0 != id by {
                    assert(full.contains(full[k]));
                    vstd::seq_lib::to_multiset_contains(full, full[k]);
                    vstd::seq_lib::to_multiset_contains(s, full[k]);
                }
            },
        }
    }
}

/// The entries in snapshot order: the arrangement of `s` that is ranked.
pub open spec fn sorted_sessions(s: Seq<(Seq<char>, u64)>) -> Seq<(Seq<char>, u64)> {
    choose|full: Seq<(Seq<char>, u64)>| full.to_multiset() == s.to_multiset() && ranked(full)
}

/// Two ranked arrangements of the same distinct-id entries are the same
/// sequence: the snapshot order leaves nothing open.
pub proof fn lemma_ranked_unique(a: Seq<(Seq<char>, u64)>, b: Seq<(Seq<char>, u64)>)
    requires
        a.to_multiset() == b.to_multiset(),
        ranked(a),
        ranked(b),
        unique_ids(a),
    ensures
        a == b,
    decreases a.len(),
{
    vstd::seq_lib::to_multiset_len(a);
    vstd::seq_lib::to_multiset_len(b);
    if a.len() == 0 {
        assert(a =~= b);
    } else {
        assert(a.contains(a[0]));
        vstd::seq_lib::to_multiset_contains(a, a[0]);
        vstd::seq_lib::to_multiset_contains(b, a[0]);
        let k = choose|k: int| 0 <= k < b.len() && b[k] == a[0];
        assert(b.contains(b[0]));
        vstd::seq_lib::to_multiset_contains(b, b[0]);
        vstd::seq_lib::to_multiset_contains(a, b[0]);
        let m = choose|m: int| 0 <= m < a.len() && a[m] == b[0];
        lemma_lex_irreflexive(a[0].0);
        lemma_lex_irreflexive(b[0].0);
        if k > 0 {
            assert(ranks_before(b[0], b[k]));
        }
        if m > 0 {
            assert(ranks_before(a[0], a[m]));
        }
        lemma_lex_total(a[0].0, b[0].0);
        assert(a[0] == b[0]);
        let a1 = a.drop_first();
        let b1 = b.drop_first();
        assert(a1 =~= a.remove(0));
        assert(b1 =~= b.remove(0));
        vstd::seq_lib::to_multiset_remove(a, 0);
        vstd::seq_lib::to_multiset_remove(b, 0);
        assert forall|i: int, j: int| 0 <= i < j < a1.len() implies ranks_before(
            #[trigger] a1[i],
            #[trigger] a1[j],
        ) by {
            assert(ranks_before(a[i + 1], a[j + 1]));
        }
        assert forall|i: int, j: int| 0 <= i < j < b1.len() implies ranks_before(
            #[trigger] b1[i],
            #[trigger] b1[j],
        ) by {
            assert(ranks_before(b[i + 1], b[j + 1]));
        }
        assert forall|i: int, j: int| 0 <= i < j < a1.len() implies (#[trigger] a1[i]).0 != (
        #[trigger] a1[j]).0 by {
            assert(a[i + 1].0 != a[j + 1].0);
        }
        lemma_ranked_unique(a1, b1);
        assert forall|i: int| 0 <= i < a.len() implies a[i] == b[i] by {
            if i > 0 {
                assert(a[i] == a1[i - 1]);
                assert(b[i] == b1[i - 1]);
            }
        }
        assert(a =~= b);
    }
}

/// Where `e` goes in the ranked `f`: before the first entry it ranks before.
spec fn insert_pos(f: Seq<(Seq<char>, u64)>, e: (Seq<char>, u64)) -> int
    decreases f.len(),
{
    if f.len() == 0 {
        0
    } else if ranks_before(e, f[0]) {
        0
    } else {
        1 + insert_pos(f.drop_first(), e)
    }
}

proof fn lemma_insert_pos(f: Seq<(Seq<char>, u64)>, e: (Seq<char>, u64))
    ensures
        0 <= insert_pos(f, e) <= f.len(),
        forall|i: int| 0 <= i < insert_pos(f, e) ==> !ranks_before(e, #[trigger] f[i]),
        insert_pos(f, e) < f.len() ==> ranks_before(e, f[insert_pos(f, e)]),
    decreases f.len(),
{
    if f.len() > 0 && !ranks_before(e, f[0]) {
        lemma_insert_pos(f.drop_first(), e);
        assert forall|i: int| 0 <= i < insert_pos(f, e) implies !ranks_before(e, #[trigger] f[i]) by {
            if i > 0 {
                assert(f[i] == f.drop_first()[i - 1]);
            }
        }
    }
}

/// Every set of entries has a ranked arrangement.
proof fn lemma_sorted_sessions_exist(s: Seq<(Seq<char>, u64)>)
    ensures
        sorted_sessions(s).to_multiset() == s.to_multiset(),
        ranked(sorted_sessions(s)),
    decreases s.len(),
{
    if s.len() == 0 {
        let e = Seq::<(Seq<char>, u64)>::empty();
        assert(e =~= s);
        assert(e.to_multiset() == s.to_multiset() && ranked(e));
    } else {
        let prev = s.drop_last();
        let e = s.last();
        lemma_sorted_sessions_exist(prev);
        let f = sorted_sessions(prev);
        lemma_insert_pos(f, e);
        let p = insert_pos(f, e);
        let g = f.insert(p, e);
        assert forall|i: int, j: int| 0 <= i < j < g.len() implies ranks_before(
            #[trigger] g[i],
            #[trigger] g[j],
        ) by {
            if i < p && j < p {
                assert(g[i] == f[i] && g[j] == f[j]);
            } else if i < p && j == p {
                lemma_ranks_total(e, f[i]);
            } else if i < p {
                assert(g[i] == f[i] && g[j] == f[j - 1]);
            } else if i == p {
                assert(g[j] == f[j - 1]);
                if j - 1 > p {
                    lemma_ranks_transitive(e, f[p], f[j - 1]);
                }
            } else {
                assert(g[i] == f[i - 1] && g[j] == f[j - 1]);
            }
        }
        vstd::seq_lib::to_multiset_insert(f, p, e);
        assert(prev.push(e) =~= s);
        vstd::seq_lib::to_multiset_build(prev, e);
        assert(g.to_multiset() == s.to_multiset() && ranked(g));
    }
}

/// One more hit of a session, seen through two full snapshots: its count
/// goes up by one (wrapping), it is listed, every other session keeps its
/// count and its presence, and ids stay distinct.
pub proof fn lemma_snapshot_after_hit(s: Seq<(Seq<char>, u64)>, id: Seq<char>)
    requires
        unique_ids(s),
    ensures
        unique_ids(sorted_sessions(bump(s, id))),
        count_of(sorted_sessions(bump(s, id)), id) == count_of(sorted_sessions(s), id).wrapping_add(
            1,
        ),
        has_session(sorted_sessions(bump(s, id)), id),
        forall|other: Seq<char>|
            other != id ==> (count_of(sorted_sessions(bump(s, id)), other) == #[trigger] count_of(
                sorted_sessions(s),
                other,
            ) && (has_session(sorted_sessions(bump(s, id)), other) <==> has_session(
                sorted_sessions(s),
                other,
            ))),
{
    let b = bump(s, id);
    lemma_bump_counts(s, id);
    lemma_sorted_sessions_exist(s);
    lemma_sorted_sessions_exist(b);
    lemma_permuted_counts(s, sorted_sessions(s));
    lemma_permuted_counts(b, sorted_sessions(b));
    lemma_find_spec(s, id);
    lemma_find_spec(b, id);
    lemma_find_spec(sorted_sessions(b), id);
    assert forall|other: Seq<char>| other != id implies (count_of(sorted_sessions(b), other)
        == #[trigger] count_of(sorted_sessions(s), other) && (has_session(sorted_sessions(b), other)
        <==> has_session(sorted_sessions(s), other))) by {
        assert(count_of(b, other) == count_of(s, other));
        lemma_presence_of_permuted(s, sorted_sessions(s), other);
        lemma_presence_of_permuted(b, sorted_sessions(b), other);
    }
    lemma_presence_of_permuted(b, sorted_sessions(b), id);
}

/// The full snapshot after any history of hits, starting from no entries:
/// ids are distinct, each session is listed with the number of its hits, and
/// exactly the sessions that were hit are listed (for histories shorter than
/// the counter's range).
pub proof fn lemma_snapshot_of_history(history: Seq<Seq<char>>, id: Seq<char>)
    requires
        history.len() <= u64::MAX,
    ensures
        unique_ids(sorted_sessions(replay(history))),
        ranked(sorted_sessions(replay(history))),
        count_of(sorted_sessions(replay(history)), id) == occurrences(history, id),
        has_session(sorted_sessions(replay(history)), id) <==> occurrences(history, id) > 0,
{
    let r = replay(history);
    lemma_replay_counts(history, id);
    lemma_sorted_sessions_exist(r);
    lemma_permuted_counts(r, sorted_sessions(r));
    lemma_presence_of_permuted(r, sorted_sessions(r), id);
}

/// A rearrangement of the entries holds the same sessions.
proof fn lemma_presence_of_permuted(
    s: Seq<(Seq<char>, u64)>,
    full: Seq<(Seq<char>, u64)>,
    id: Seq<char>,
)
    requires
        full.to_multiset() == s.to_multiset(),
    ensures
        has_session(full, id) <==> has_session(s, id),
{
    lemma_find_spec(s, id);
    lemma_find_spec(full, id);
    if has_session(s, id) {
        let k = find_session(s, id)->0;
        assert(s.contains(s[k as int]));
        vstd::seq_lib::to_multiset_contains(s, s[k as int]);
        vstd::seq_lib::to_multiset_contains(full, s[k as int]);
    }
    if has_session(full, id) {
        let k = find_session(full, id)->0;
        assert(full.contains(full[k as int]));
        vstd::seq_lib::to_multiset_contains(full, full[k as int]);
        vstd::seq_lib::to_multiset_contains(s, full[k as int]);
    }
}

/// A ranked arrangement of distinct-id entries is the snapshot order.
pub proof fn lemma_sorted_sessions(s: Seq<(Seq<char>, u64)>, full: Seq<(Seq<char>, u64)>)
    requires
        unique_ids(s),
        full.to_multiset() == s.to_multiset(),
        ranked(full),
    ensures
        sorted_sessions(s) == full,
{
    let c = sorted_sessions(s);
    assert(c.to_multiset() == s.to_multiset() && ranked(c));
    lemma_permuted_counts(s, full);
    lemma_ranked_unique(full, c);
}

proof fn lemma_find_none(s: Seq<(Seq<char>, u64)>, id: Seq<char>)
    requires
        find_session(s, id) is None,
    ensures
        forall|k: int| 0 <= k < s.len() ==> (#[trigger] s[k]).0 != id,
    decreases s.len(),
{
    if s.len() > 0 {
        lemma_find_none(s.drop_last(), id);
        assert forall|k: int| 0 <= k < s.len() implies (#[trigger] s[k]).0 != id by {
            if k < s.len() - 1 {
                assert(s[k] == s.drop_last()[k]);
            }
        }
    }
}

} // verus!
