//! The second stage of two-stage episodic retrieval and the merge of both
//! stages: events near the similar ones in conversation order are added,
//! duplicates are dropped, and the result is put back in conversation
//! order.
//!
//! An event is given here by its id and its sequence number in the
//! conversation, when it has one.

use vstd::prelude::*;

use crate::graph::node::string_views;
use crate::text::str_eq;

verus! {

broadcast use vstd::string::group_string_axioms;

/// An event's id and sequence number.
pub type EventKey = (String, Option<u64>);

/// The view of an event key.
pub open spec fn key_view(k: EventKey) -> (Seq<char>, Option<u64>) {
    (k.0@, k.1)
}

/// The views of event keys.
pub open spec fn keys_view(ks: Seq<EventKey>) -> Seq<(Seq<char>, Option<u64>)> {
    ks.map_values(|k: EventKey| key_view(k))
}

/// Sequence number `e` is within `kc` of the numbered event `s`.
pub open spec fn near(e: u64, s: u64, kc: nat) -> bool {
    e + kc >= s && e <= s + kc
}

/// The event is numbered within `kc` of `e`.
pub open spec fn numbered_near(k: (Seq<char>, Option<u64>), e: u64, kc: nat) -> bool {
    match k.1 {
        Some(s) => near(e, s, kc),
        None => false,
    }
}

/// Some event of `similar` has a sequence number within `kc` of `e`.
pub open spec fn near_some(e: u64, similar: Seq<(Seq<char>, Option<u64>)>, kc: nat) -> bool {
    exists|j: int| 0 <= j < similar.len() && numbered_near(#[trigger] similar[j], e, kc)
}

/// Adding `kc` to a sequence number of `similar` does not overflow.
pub open spec fn within_range(similar: Seq<EventKey>, kc: nat) -> bool {
    forall|j: int|
        0 <= j < similar.len() ==> match (#[trigger] similar[j]).1 {
            Some(s) => s + kc <= u64::MAX,
            None => true,
        }
}

/// Some event of `similar` has this id.
pub open spec fn has_id(similar: Seq<(Seq<char>, Option<u64>)>, id: Seq<char>) -> bool {
    exists|j: int| 0 <= j < similar.len() && #[trigger] similar[j].0 == id
}

/// The event is a neighbour: numbered, near a similar event, and not one of
/// them.
pub open spec fn is_neighbour(e: (Seq<char>, Option<u64>), similar: Seq<(Seq<char>, Option<u64>)>, kc: nat) -> bool {
    match e.1 {
        Some(n) => near_some(n, similar, kc) && !has_id(similar, e.0),
        None => false,
    }
}

/// Indices of the neighbours among the first `k` events.
pub open spec fn neighbours_upto(
    events: Seq<(Seq<char>, Option<u64>)>,
    similar: Seq<(Seq<char>, Option<u64>)>,
    kc: nat,
    k: nat,
) -> Seq<nat>
    decreases k,
{
    if k == 0 {
        seq![]
    } else {
        let rest = neighbours_upto(events, similar, kc, (k - 1) as nat);
        if is_neighbour(events[k - 1], similar, kc) {
            rest.push((k - 1) as nat)
        } else {
            rest
        }
    }
}

/// `s` cut to its first `n` items.
pub open spec fn first_n<A>(s: Seq<A>, n: nat) -> Seq<A> {
    if s.len() <= n {
        s
    } else {
        s.take(n as int)
    }
}

/// The neighbours of the similar events, in conversation order of the
/// store, at most `kc` of them; none when `kc` is 0 or nothing was similar.
pub open spec fn neighbours(
    events: Seq<(Seq<char>, Option<u64>)>,
    similar: Seq<(Seq<char>, Option<u64>)>,
    kc: nat,
) -> Seq<nat> {
    if kc == 0 || similar.len() == 0 {
        seq![]
    } else {
        first_n(neighbours_upto(events, similar, kc, events.len()), kc)
    }
}

fn near_any(e: u64, similar: &Vec<EventKey>, kc: usize) -> (r: bool)
    requires
        within_range(similar@, kc as nat),
    ensures
        r == near_some(e, keys_view(similar@), kc as nat),
{
    let ghost sv = keys_view(similar@);
    let mut j: usize = 0;
    while j < similar.len()
        invariant
            sv == keys_view(similar@),
            0 <= j <= similar@.len(),
            within_range(similar@, kc as nat),
            forall|i: int| 0 <= i < j ==> !numbered_near(#[trigger] sv[i], e, kc as nat),
        decreases similar.len() - j,
    {
        assert(sv[j as int] == key_view(similar@[j as int]));
        if let Some(s) = similar[j].1 {
            let low = if s >= kc as u64 {
                s - kc as u64
            } else {
                0
            };
            if e >= low && e <= s + kc as u64 {
                return true;
            }
        }
        j = j + 1;
    }
    false
}

fn id_among(id: &str, similar: &Vec<EventKey>) -> (r: bool)
    ensures
        r == has_id(keys_view(similar@), id@),
{
    let ghost sv = keys_view(similar@);
    let mut j: usize = 0;
    while j < similar.len()
        invariant
            sv == keys_view(similar@),
            0 <= j <= similar@.len(),
            forall|i: int| 0 <= i < j ==> (#[trigger] sv[i]).0 != id@,
        decreases similar.len() - j,
    {
        assert(sv[j as int] == key_view(similar@[j as int]));
        if str_eq(similar[j].0.as_str(), id) {
            assert(sv[j as int].0 == id@);
            return true;
        }
        j = j + 1;
    }
    false
}

/// The indices of the events near the similar ones, at most `kc`.
pub fn contiguous_neighbours(events: &Vec<EventKey>, similar: &Vec<EventKey>, kc: usize) -> (out: Vec<usize>)
    requires
        within_range(similar@, kc as nat),
    ensures
        out@.map_values(|i: usize| i as nat) == neighbours(keys_view(events@), keys_view(similar@), kc as nat),
{
    let ghost ev = keys_view(events@);
    let ghost sv = keys_view(similar@);
    let mut out: Vec<usize> = Vec::new();
    if kc == 0 || similar.len() == 0 {
        assert(out@.map_values(|i: usize| i as nat) =~= Seq::<nat>::empty());
        return out;
    }
    let mut i: usize = 0;
    while i < events.len()
        invariant
            ev == keys_view(events@),
            sv == keys_view(similar@),
            kc > 0,
            similar@.len() > 0,
            within_range(similar@, kc as nat),
            0 <= i <= events@.len(),
            out@.len() <= kc,
            out@.map_values(|x: usize| x as nat) == first_n(neighbours_upto(ev, sv, kc as nat, i as nat), kc as nat),
            out@.len() < kc ==> out@.map_values(|x: usize| x as nat) == neighbours_upto(ev, sv, kc as nat, i as nat),
        decreases events.len() - i,
    {
        assert(ev[i as int] == key_view(events@[i as int]));
        let hit = match events[i].1 {
            Some(n) => near_any(n, similar, kc) && !id_among(events[i].0.as_str(), similar),
            None => false,
        };
        let ghost before = out@.map_values(|x: usize| x as nat);
        let ghost prev = neighbours_upto(ev, sv, kc as nat, i as nat);
        if hit && out.len() < kc {
            out.push(i);
            proof {
                assert(out@.map_values(|x: usize| x as nat) =~= before.push(i as nat));
            }
        }
        proof {
            let next = neighbours_upto(ev, sv, kc as nat, (i + 1) as nat);
            if before.len() >= kc {
                assert(prev.len() >= kc);
                assert(first_n(next, kc as nat) =~= first_n(prev, kc as nat));
            }
        }
        i = i + 1;
    }
    out
}

// ---------------------------------------------------------------------------
// Merging the stages
// ---------------------------------------------------------------------------

/// The sort key of an event: its sequence number, unnumbered events last.
pub open spec fn order_key(k: (Seq<char>, Option<u64>)) -> u64 {
    match k.1 {
        Some(n) => n,
        None => u64::MAX,
    }
}

/// `x` inserted after every element of the sorted `s` whose key is not
/// greater (a stable insertion).
pub open spec fn insert_by_key(s: Seq<(Seq<char>, Option<u64>)>, x: (Seq<char>, Option<u64>)) -> Seq<(Seq<char>, Option<u64>)>
    decreases s.len(),
{
    if s.len() == 0 {
        seq![x]
    } else if order_key(s.last()) <= order_key(x) {
        s.push(x)
    } else {
        insert_by_key(s.drop_last(), x).push(s.last())
    }
}

/// The stable sort by sequence number.
pub open spec fn sort_by_order(s: Seq<(Seq<char>, Option<u64>)>) -> Seq<(Seq<char>, Option<u64>)>
    decreases s.len(),
{
    if s.len() == 0 {
        seq![]
    } else {
        insert_by_key(sort_by_order(s.drop_last()), s.last())
    }
}

/// Adds `x` unless its id is there already.
pub open spec fn add_unique(acc: Seq<(Seq<char>, Option<u64>)>, x: (Seq<char>, Option<u64>)) -> Seq<(Seq<char>, Option<u64>)> {
    if has_id(acc, x.0) {
        acc
    } else {
        acc.push(x)
    }
}

/// The similar events, each id once.
pub open spec fn unique_similar(s: Seq<(Seq<char>, Option<u64>)>) -> Seq<(Seq<char>, Option<u64>)>
    decreases s.len(),
{
    if s.len() == 0 {
        seq![]
    } else {
        add_unique(unique_similar(s.drop_last()), s.last())
    }
}

/// Then the neighbours, each id once, while fewer than `max` are held.
pub open spec fn add_neighbours(
    acc: Seq<(Seq<char>, Option<u64>)>,
    ns: Seq<(Seq<char>, Option<u64>)>,
    max: nat,
) -> Seq<(Seq<char>, Option<u64>)>
    decreases ns.len(),
{
    if ns.len() == 0 {
        acc
    } else {
        let a = add_neighbours(acc, ns.drop_last(), max);
        if !has_id(a, ns.last().0) && a.len() < max {
            a.push(ns.last())
        } else {
            a
        }
    }
}

/// The merged retrieval: similar events first, then neighbours while room
/// is left, no id twice, in conversation order, at most `max` events.
pub open spec fn merged_events(
    similar: Seq<(Seq<char>, Option<u64>)>,
    neighbours: Seq<(Seq<char>, Option<u64>)>,
    max: nat,
) -> Seq<(Seq<char>, Option<u64>)> {
    first_n(sort_by_order(add_neighbours(unique_similar(similar), neighbours, max)), max)
}

fn copy_key(k: &EventKey) -> (c: EventKey)
    ensures
        key_view(c) == key_view(*k),
{
    (k.0.clone(), k.1)
}

fn holds_id(acc: &Vec<EventKey>, id: &str) -> (r: bool)
    ensures
        r == has_id(keys_view(acc@), id@),
{
    id_among(id, acc)
}

/// Inserts `x` into the sorted `acc` after every event whose key is not
/// greater.
fn insert_sorted(acc: &mut Vec<EventKey>, x: EventKey)
    ensures
        keys_view(final(acc)@) == insert_by_key(keys_view(old(acc)@), key_view(x)),
    decreases old(acc)@.len(),
{
    let xk = match x.1 {
        Some(n) => n,
        None => u64::MAX,
    };
    let ghost before = keys_view(acc@);
    if acc.len() == 0 {
        acc.push(x);
        assert(keys_view(acc@) =~= seq![key_view(x)]);
        return;
    }
    let n = acc.len();
    let lk = match acc[n - 1].1 {
        Some(v) => v,
        None => u64::MAX,
    };
    assert(before.last() == key_view(acc@[n - 1]));
    if lk <= xk {
        acc.push(x);
        assert(keys_view(acc@) =~= before.push(key_view(x)));
    } else {
        let last = acc.pop().unwrap();
        assert(keys_view(acc@) =~= before.drop_last());
        insert_sorted(acc, x);
        let ghost mid = keys_view(acc@);
        acc.push(last);
        assert(keys_view(acc@) =~= mid.push(key_view(last)));
    }
}

/// Merges the similar events and their neighbours.
pub fn combine_and_deduplicate(similar: Vec<EventKey>, neighbours: Vec<EventKey>, max_events: usize) -> (out: Vec<EventKey>)
    ensures
        keys_view(out@) == merged_events(keys_view(similar@), keys_view(neighbours@), max_events as nat),
{
    let ghost sv = keys_view(similar@);
    let ghost nv = keys_view(neighbours@);
    let mut acc: Vec<EventKey> = Vec::new();
    let mut i: usize = 0;
    while i < similar.len()
        invariant
            sv == keys_view(similar@),
            0 <= i <= similar@.len(),
            keys_view(acc@) == unique_similar(sv.take(i as int)),
        decreases similar.len() - i,
    {
        proof {
            assert(sv.take(i + 1).drop_last() =~= sv.take(i as int));
            assert(sv.take(i + 1).last() == key_view(similar@[i as int]));
        }
        let item = copy_key(&similar[i]);
        assert(key_view(item) == key_view(similar@[i as int]));
        if !holds_id(&acc, item.0.as_str()) {
            let ghost before = keys_view(acc@);
            acc.push(item);
            assert(keys_view(acc@) =~= before.push(key_view(similar@[i as int])));
        }
        i = i + 1;
    }
    assert(sv.take(similar@.len() as int) =~= sv);
    let ghost base = keys_view(acc@);
    let mut k: usize = 0;
    while k < neighbours.len()
        invariant
            nv == keys_view(neighbours@),
            base == unique_similar(sv),
            0 <= k <= neighbours@.len(),
            keys_view(acc@) == add_neighbours(base, nv.take(k as int), max_events as nat),
        decreases neighbours.len() - k,
    {
        proof {
            assert(nv.take(k + 1).drop_last() =~= nv.take(k as int));
            assert(nv.take(k + 1).last() == key_view(neighbours@[k as int]));
        }
        let item = copy_key(&neighbours[k]);
        assert(key_view(item) == key_view(neighbours@[k as int]));
        if !holds_id(&acc, item.0.as_str()) && acc.len() < max_events {
            let ghost before = keys_view(acc@);
            acc.push(item);
            assert(keys_view(acc@) =~= before.push(key_view(neighbours@[k as int])));
        }
        k = k + 1;
    }
    assert(nv.take(neighbours@.len() as int) =~= nv);
    let ghost merged = keys_view(acc@);
    let mut sorted: Vec<EventKey> = Vec::new();
    let mut j: usize = 0;
    while j < acc.len()
        invariant
            merged == keys_view(acc@),
            0 <= j <= acc@.len(),
            keys_view(sorted@) == sort_by_order(merged.take(j as int)),
        decreases acc.len() - j,
    {
        proof {
            assert(merged.take(j + 1).drop_last() =~= merged.take(j as int));
            assert(merged.take(j + 1).last() == key_view(acc@[j as int]));
        }
        let item = copy_key(&acc[j]);
        assert(key_view(item) == key_view(acc@[j as int]));
        insert_sorted(&mut sorted, item);
        j = j + 1;
    }
    assert(merged.take(acc@.len() as int) =~= merged);
    if sorted.len() > max_events {
        sorted.truncate(max_events);
        assert(keys_view(sorted@) =~= sort_by_order(merged).take(max_events as int));
    }
    sorted
}

// ---------------------------------------------------------------------------
// Laws
// ---------------------------------------------------------------------------

/// No id occurs twice.
pub open spec fn ids_unique(s: Seq<(Seq<char>, Option<u64>)>) -> bool {
    forall|i: int, j: int| 0 <= i < j < s.len() ==> (#[trigger] s[i]).0 != (#[trigger] s[j]).0
}

/// The events are in conversation order.
pub open spec fn in_order(s: Seq<(Seq<char>, Option<u64>)>) -> bool {
    forall|i: int, j: int| 0 <= i < j < s.len() ==> order_key(#[trigger] s[i]) <= order_key(#[trigger] s[j])
}

proof fn lemma_has_id_push(s: Seq<(Seq<char>, Option<u64>)>, x: (Seq<char>, Option<u64>), id: Seq<char>)
    ensures
        has_id(s.push(x), id) <==> (has_id(s, id) || x.0 == id),
{
    if has_id(s.push(x), id) {
        let j = choose|j: int| 0 <= j < s.push(x).len() && #[trigger] s.push(x)[j].0 == id;
        if j < s.len() {
            assert(s[j] == s.push(x)[j]);
        }
    }
    if has_id(s, id) {
        let j = choose|j: int| 0 <= j < s.len() && #[trigger] s[j].0 == id;
        assert(s.push(x)[j] == s[j]);
    }
    if x.0 == id {
        assert(s.push(x)[s.len() as int] == x);
    }
}

proof fn lemma_unique_push(s: Seq<(Seq<char>, Option<u64>)>, x: (Seq<char>, Option<u64>))
    requires
        ids_unique(s),
        !has_id(s, x.0),
    ensures
        ids_unique(s.push(x)),
{
    let r = s.push(x);
    assert forall|i: int, j: int| 0 <= i < j < r.len() implies (#[trigger] r[i]).0 != (#[trigger] r[j]).0 by {
        assert(r[i] == s[i]);
        if j < s.len() {
            assert(r[j] == s[j]);
        } else {
            assert(r[j] == x);
        }
    }
}

proof fn lemma_insert(s: Seq<(Seq<char>, Option<u64>)>, x: (Seq<char>, Option<u64>))
    requires
        in_order(s),
    ensures
        in_order(insert_by_key(s, x)),
        insert_by_key(s, x).len() == s.len() + 1,
        forall|e: (Seq<char>, Option<u64>)| #[trigger] insert_by_key(s, x).contains(e) <==> (s.contains(e) || e == x),
        forall|id: Seq<char>| #[trigger] has_id(insert_by_key(s, x), id) <==> (has_id(s, id) || x.0 == id),
        ids_unique(s) && !has_id(s, x.0) ==> ids_unique(insert_by_key(s, x)),
    decreases s.len(),
{
    let r = insert_by_key(s, x);
    if s.len() == 0 {
        assert forall|e: (Seq<char>, Option<u64>)| #[trigger] r.contains(e) <==> (s.contains(e) || e == x) by {
            if e == x {
                assert(r[0] == x);
            }
        }
        assert forall|id: Seq<char>| #[trigger] has_id(r, id) <==> (has_id(s, id) || x.0 == id) by {
            lemma_has_id_push(s, x, id);
            assert(r == s.push(x));
        }
    } else if order_key(s.last()) <= order_key(x) {
        assert(r == s.push(x));
        assert forall|i: int, j: int| 0 <= i < j < r.len() implies order_key(#[trigger] r[i]) <= order_key(#[trigger] r[j]) by {
            if j < s.len() {
                assert(r[i] == s[i] && r[j] == s[j]);
            } else {
                assert(r[i] == s[i]);
                if i < s.len() - 1 {
                    assert(order_key(s[i]) <= order_key(s[s.len() - 1]));
                }
            }
        }
        assert forall|e: (Seq<char>, Option<u64>)| #[trigger] r.contains(e) <==> (s.contains(e) || e == x) by {
            if r.contains(e) {
                let k = choose|k: int| 0 <= k < r.len() && r[k] == e;
                if k < s.len() {
                    assert(s[k] == e);
                }
            }
            if s.contains(e) {
                let k = choose|k: int| 0 <= k < s.len() && s[k] == e;
                assert(r[k] == e);
            }
            if e == x {
                assert(r[s.len() as int] == x);
            }
        }
        assert forall|id: Seq<char>| #[trigger] has_id(r, id) <==> (has_id(s, id) || x.0 == id) by {
            lemma_has_id_push(s, x, id);
        }
        if ids_unique(s) && !has_id(s, x.0) {
            lemma_unique_push(s, x);
        }
    } else {
        let s0 = s.drop_last();
        let last = s.last();
        assert(in_order(s0)) by {
            assert forall|i: int, j: int| 0 <= i < j < s0.len() implies order_key(#[trigger] s0[i]) <= order_key(#[trigger] s0[j]) by {
                assert(s0[i] == s[i] && s0[j] == s[j]);
            }
        }
        lemma_insert(s0, x);
        let r0 = insert_by_key(s0, x);
        assert(r == r0.push(last));
        assert forall|e: (Seq<char>, Option<u64>)| #[trigger] s.contains(e) <==> (s0.contains(e) || e == last) by {
            assert(s == s0.push(last));
            if s.contains(e) {
                let k = choose|k: int| 0 <= k < s.len() && s[k] == e;
                if k < s0.len() {
                    assert(s0[k] == e);
                }
            }
            if s0.contains(e) {
                let k = choose|k: int| 0 <= k < s0.len() && s0[k] == e;
                assert(s[k] == e);
            }
            if e == last {
                assert(s[s.len() - 1] == last);
            }
        }
        assert forall|i: int, j: int| 0 <= i < j < r.len() implies order_key(#[trigger] r[i]) <= order_key(#[trigger] r[j]) by {
            if j < r0.len() {
                assert(r[i] == r0[i] && r[j] == r0[j]);
            } else {
                assert(r[j] == last);
                assert(r[i] == r0[i]);
                assert(r0.contains(r0[i]));
                if r0[i] == x {
                } else {
                    assert(s0.contains(r0[i]));
                    let k = choose|k: int| 0 <= k < s0.len() && s0[k] == r0[i];
                    assert(s[k] == s0[k]);
                    assert(order_key(s[k]) <= order_key(s[s.len() - 1]));
                }
            }
        }
        assert forall|e: (Seq<char>, Option<u64>)| #[trigger] r.contains(e) <==> (s.contains(e) || e == x) by {
            if r.contains(e) {
                let k = choose|k: int| 0 <= k < r.len() && r[k] == e;
                if k < r0.len() {
                    assert(r0[k] == e);
                    assert(r0.contains(e));
                }
            }
            if s0.contains(e) || e == x {
                assert(r0.contains(e));
                let k = choose|k: int| 0 <= k < r0.len() && r0[k] == e;
                assert(r[k] == e);
            }
            if e == last {
                assert(r[r0.len() as int] == last);
            }
        }
        assert forall|id: Seq<char>| #[trigger] has_id(r, id) <==> (has_id(s, id) || x.0 == id) by {
            lemma_has_id_push(r0, last, id);
            lemma_has_id_push(s0, last, id);
            assert(s == s0.push(last));
        }
        if ids_unique(s) && !has_id(s, x.0) {
            assert(ids_unique(s0)) by {
                assert forall|i: int, j: int| 0 <= i < j < s0.len() implies (#[trigger] s0[i]).0 != (#[trigger] s0[j]).0 by {
                    assert(s0[i] == s[i] && s0[j] == s[j]);
                }
            }
            assert(!has_id(s0, x.0)) by {
                lemma_has_id_push(s0, last, x.0);
                assert(s == s0.push(last));
            }
            assert(!has_id(r0, last.0)) by {
                if has_id(s0, last.0) {
                    let k = choose|k: int| 0 <= k < s0.len() && #[trigger] s0[k].0 == last.0;
                    assert(s[k] == s0[k]);
                    assert(s[s.len() - 1] == last);
                }
                if x.0 == last.0 {
                    assert(s[s.len() - 1] == last);
                }
            }
            lemma_unique_push(r0, last);
        }
    }
}

proof fn lemma_sort(s: Seq<(Seq<char>, Option<u64>)>)
    ensures
        in_order(sort_by_order(s)),
        sort_by_order(s).len() == s.len(),
        forall|id: Seq<char>| #[trigger] has_id(sort_by_order(s), id) <==> has_id(s, id),
        ids_unique(s) ==> ids_unique(sort_by_order(s)),
    decreases s.len(),
{
    if s.len() > 0 {
        let s0 = s.drop_last();
        lemma_sort(s0);
        lemma_insert(sort_by_order(s0), s.last());
        assert forall|id: Seq<char>| #[trigger] has_id(sort_by_order(s), id) <==> has_id(s, id) by {
            lemma_has_id_push(s0, s.last(), id);
            assert(s == s0.push(s.last()));
        }
        if ids_unique(s) {
            assert(ids_unique(s0)) by {
                assert forall|i: int, j: int| 0 <= i < j < s0.len() implies (#[trigger] s0[i]).0 != (#[trigger] s0[j]).0 by {
                    assert(s0[i] == s[i] && s0[j] == s[j]);
                }
            }
            assert(!has_id(sort_by_order(s0), s.last().0)) by {
                if has_id(s0, s.last().0) {
                    let k = choose|k: int| 0 <= k < s0.len() && #[trigger] s0[k].0 == s.last().0;
                    assert(s[k] == s0[k]);
                }
            }
        }
    } else {
        assert(sort_by_order(s) =~= s);
    }
}

proof fn lemma_unique_similar(s: Seq<(Seq<char>, Option<u64>)>)
    ensures
        ids_unique(unique_similar(s)),
    decreases s.len(),
{
    if s.len() > 0 {
        lemma_unique_similar(s.drop_last());
        let acc = unique_similar(s.drop_last());
        if !has_id(acc, s.last().0) {
            lemma_unique_push(acc, s.last());
        }
    }
}

proof fn lemma_add_neighbours(acc: Seq<(Seq<char>, Option<u64>)>, ns: Seq<(Seq<char>, Option<u64>)>, max: nat)
    requires
        ids_unique(acc),
    ensures
        ids_unique(add_neighbours(acc, ns, max)),
    decreases ns.len(),
{
    if ns.len() > 0 {
        lemma_add_neighbours(acc, ns.drop_last(), max);
        let a = add_neighbours(acc, ns.drop_last(), max);
        if !has_id(a, ns.last().0) && a.len() < max {
            lemma_unique_push(a, ns.last());
        }
    }
}

/// The merged retrieval holds at most `max` events, no id twice, in
/// conversation order.
pub proof fn lemma_merged_events(
    similar: Seq<(Seq<char>, Option<u64>)>,
    neighbours: Seq<(Seq<char>, Option<u64>)>,
    max: nat,
)
    ensures
        merged_events(similar, neighbours, max).len() <= max,
        ids_unique(merged_events(similar, neighbours, max)),
        in_order(merged_events(similar, neighbours, max)),
{
    lemma_unique_similar(similar);
    lemma_add_neighbours(unique_similar(similar), neighbours, max);
    let all = add_neighbours(unique_similar(similar), neighbours, max);
    lemma_sort(all);
    let sorted = sort_by_order(all);
    let m = merged_events(similar, neighbours, max);
    assert forall|i: int, j: int| 0 <= i < j < m.len() implies (#[trigger] m[i]).0 != (#[trigger] m[j]).0 && order_key(m[i]) <= order_key(m[j]) by {
        assert(m[i] == sorted[i] && m[j] == sorted[j]);
    }
}

} // verus!
