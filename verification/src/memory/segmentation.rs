//! Where episodic events begin.
//!
//! Token positions are judged by a surprise signal computed elsewhere: for
//! each position after the first, whether its surprise exceeds the rolling
//! threshold (`None` when the position has no window to judge it by).  A new
//! event begins at a surprising position once the current event has its
//! minimum size, and at any position once the current event has reached its
//! maximum size.

use vstd::prelude::*;

verus! {

/// Boundaries and the last boundary after judging positions `1..k`.
pub open spec fn scan(signals: Seq<Option<bool>>, min_size: nat, max_size: nat, k: nat) -> (Seq<nat>, nat)
    decreases k,
{
    if k <= 1 {
        (seq![0nat], 0nat)
    } else {
        let (bs, last) = scan(signals, min_size, max_size, (k - 1) as nat);
        let i = (k - 1) as nat;
        match signals[i as int] {
            None => (bs, last),
            Some(spike) => if (spike && i - last >= min_size) || i - last >= max_size {
                (bs.push(i), i)
            } else {
                (bs, last)
            },
        }
    }
}

/// The positions where events begin: none for no tokens, else position 0
/// and the positions the rules select.
pub open spec fn boundaries_of(signals: Seq<Option<bool>>, min_size: nat, max_size: nat) -> Seq<nat> {
    if signals.len() == 0 {
        seq![]
    } else {
        scan(signals, min_size, max_size, signals.len()).0
    }
}

/// The positions where events begin.
pub fn place_boundaries(signals: &Vec<Option<bool>>, min_size: usize, max_size: usize) -> (b: Vec<usize>)
    ensures
        b@.map_values(|x: usize| x as nat) == boundaries_of(signals@, min_size as nat, max_size as nat),
{
    let mut b: Vec<usize> = Vec::new();
    let n = signals.len();
    if n == 0 {
        assert(b@.map_values(|x: usize| x as nat) =~= Seq::<nat>::empty());
        return b;
    }
    b.push(0);
    let mut last: usize = 0;
    let mut i: usize = 1;
    assert(b@.map_values(|x: usize| x as nat) =~= seq![0nat]);
    while i < n
        invariant
            n == signals@.len(),
            1 <= i <= n,
            last < i,
            (b@.map_values(|x: usize| x as nat), last as nat) == scan(
                signals@,
                min_size as nat,
                max_size as nat,
                i as nat,
            ),
        decreases n - i,
    {
        match signals[i] {
            None => {},
            Some(spike) => {
                let since = i - last;
                if (spike && since >= min_size) || since >= max_size {
                    let ghost before = b@;
                    b.push(i);
                    last = i;
                    proof {
                        assert(b@.map_values(|x: usize| x as nat) =~= before.map_values(
                            |x: usize| x as nat,
                        ).push(i as nat));
                    }
                }
            },
        }
        i = i + 1;
    }
    b
}

/// Facts of a scan: it starts at 0, rises strictly, ends at its last
/// boundary, stays below `k`, and each gap was allowed by the rules.
proof fn lemma_scan_shape(signals: Seq<Option<bool>>, min_size: nat, max_size: nat, k: nat)
    requires
        1 <= k <= signals.len(),
    ensures
        ({
            let (bs, last) = scan(signals, min_size, max_size, k);
            &&& bs.len() >= 1
            &&& bs[0] == 0
            &&& bs.last() == last
            &&& last < k
            &&& forall|j: int| 0 <= j < bs.len() - 1 ==> #[trigger] bs[j] < bs[j + 1]
            &&& forall|j: int|
                0 <= j < bs.len() - 1 ==> bs[j + 1] - #[trigger] bs[j] >= min_size || bs[j + 1] - bs[j]
                    >= max_size
        }),
    decreases k,
{
    if k > 1 {
        lemma_scan_shape(signals, min_size, max_size, (k - 1) as nat);
    }
}

/// With every position judged, no event grows past its maximum size: gaps
/// between boundaries are at most the maximum (at most 1 when it is 0), and
/// fewer than the maximum positions follow the last boundary.
proof fn lemma_scan_max_gap(signals: Seq<Option<bool>>, min_size: nat, max_size: nat, k: nat)
    requires
        1 <= k <= signals.len(),
        max_size >= 1,
        forall|i: int| 1 <= i < k ==> (#[trigger] signals[i]) is Some,
    ensures
        ({
            let (bs, last) = scan(signals, min_size, max_size, k);
            &&& k - 1 - last < max_size
            &&& forall|j: int| 0 <= j < bs.len() - 1 ==> bs[j + 1] - #[trigger] bs[j] <= max_size
        }),
    decreases k,
{
    if k > 1 {
        lemma_scan_max_gap(signals, min_size, max_size, (k - 1) as nat);
        lemma_scan_shape(signals, min_size, max_size, (k - 1) as nat);
    }
}

/// Event boundaries start at 0 and rise strictly, stay within the tokens,
/// and each event before the last is at least the minimum size unless the
/// maximum size forced the boundary.
pub proof fn lemma_boundaries_ordered(signals: Seq<Option<bool>>, min_size: nat, max_size: nat)
    requires
        signals.len() > 0,
    ensures
        ({
            let bs = boundaries_of(signals, min_size, max_size);
            &&& bs.len() >= 1
            &&& bs[0] == 0
            &&& forall|j: int| 0 <= j < bs.len() ==> #[trigger] bs[j] < signals.len()
            &&& forall|j: int| 0 <= j < bs.len() - 1 ==> #[trigger] bs[j] < bs[j + 1]
            &&& forall|j: int|
                0 <= j < bs.len() - 1 ==> bs[j + 1] - #[trigger] bs[j] >= min_size || bs[j + 1] - bs[j]
                    >= max_size
        }),
{
    lemma_scan_shape(signals, min_size, max_size, signals.len());
    let bs = boundaries_of(signals, min_size, max_size);
    assert forall|j: int| 0 <= j < bs.len() implies #[trigger] bs[j] < signals.len() by {
        lemma_sorted_below_last(bs, j);
    }
}

proof fn lemma_sorted_below_last(bs: Seq<nat>, j: int)
    requires
        0 <= j < bs.len(),
        forall|i: int| 0 <= i < bs.len() - 1 ==> #[trigger] bs[i] < bs[i + 1],
    ensures
        bs[j] <= bs.last(),
    decreases bs.len() - j,
{
    if j < bs.len() - 1 {
        lemma_sorted_below_last(bs, j + 1);
    }
}

/// When every position is judged, no event is longer than the maximum size.
pub proof fn lemma_boundaries_bound_event_size(signals: Seq<Option<bool>>, min_size: nat, max_size: nat)
    requires
        signals.len() > 0,
        max_size >= 1,
        forall|i: int| 1 <= i < signals.len() ==> (#[trigger] signals[i]) is Some,
    ensures
        ({
            let bs = boundaries_of(signals, min_size, max_size);
            &&& forall|j: int| 0 <= j < bs.len() - 1 ==> bs[j + 1] - #[trigger] bs[j] <= max_size
            &&& signals.len() - bs.last() <= max_size
        }),
{
    lemma_scan_max_gap(signals, min_size, max_size, signals.len());
    lemma_scan_shape(signals, min_size, max_size, signals.len());
}

/// The token spans of the events: one between each pair of consecutive
/// boundaries, then the tokens after the last boundary when there are at
/// least `min_size` of them.
pub open spec fn spans_of(bs: Seq<nat>, n: nat, min_size: nat) -> Seq<(nat, nat)> {
    let inner = Seq::new((if bs.len() == 0 { 0 } else { bs.len() - 1 }) as nat, |j: int| (bs[j], bs[j + 1]));
    if bs.len() > 0 && bs.last() < n && n - bs.last() >= min_size {
        inner.push((bs.last(), n))
    } else {
        inner
    }
}

/// The token spans of the events for boundaries over `token_count` tokens.
pub fn event_spans(boundaries: &Vec<usize>, token_count: usize, min_size: usize) -> (spans: Vec<(usize, usize)>)
    ensures
        spans@.map_values(|p: (usize, usize)| (p.0 as nat, p.1 as nat)) == spans_of(
            boundaries@.map_values(|x: usize| x as nat),
            token_count as nat,
            min_size as nat,
        ),
{
    let ghost bs = boundaries@.map_values(|x: usize| x as nat);
    let mut spans: Vec<(usize, usize)> = Vec::new();
    let n = boundaries.len();
    let mut j: usize = 1;
    while j < n
        invariant
            n == boundaries@.len(),
            bs == boundaries@.map_values(|x: usize| x as nat),
            1 <= j <= n || n == 0,
            n == 0 ==> j == 1,
            spans@.len() == j - 1,
            forall|k: int|
                0 <= k < spans@.len() ==> (#[trigger] spans@[k]).0 == boundaries@[k] && spans@[k].1
                    == boundaries@[k + 1],
        decreases n - j,
    {
        spans.push((boundaries[j - 1], boundaries[j]));
        j = j + 1;
    }
    if n > 0 {
        let last = boundaries[n - 1];
        if last < token_count && token_count - last >= min_size {
            spans.push((last, token_count));
        }
    }
    let ghost inner = Seq::new((if bs.len() == 0 { 0 } else { bs.len() - 1 }) as nat, |j: int| (bs[j], bs[j + 1]));
    proof {
        if n > 0 {
            assert(bs.last() == boundaries@[n - 1] as nat);
        }
    }
    assert(spans@.map_values(|p: (usize, usize)| (p.0 as nat, p.1 as nat)) =~= spans_of(
        bs,
        token_count as nat,
        min_size as nat,
    ));
    spans
}

/// The events cut from the tokens are contiguous and non-empty: the first
/// starts at 0, each starts where the one before it ends, and the last
/// reaches the end of the tokens exactly when the trailing event is kept.
pub proof fn lemma_event_spans_contiguous(
    signals: Seq<Option<bool>>,
    min_size: nat,
    max_size: nat,
)
    requires
        signals.len() > 0,
    ensures
        ({
            let n = signals.len();
            let sp = spans_of(boundaries_of(signals, min_size, max_size), n, min_size);
            let bs = boundaries_of(signals, min_size, max_size);
            &&& sp.len() > 0 ==> sp[0].0 == 0
            &&& forall|j: int| 0 <= j < sp.len() ==> #[trigger] sp[j].0 < sp[j].1 <= n
            &&& forall|j: int| 0 <= j < sp.len() - 1 ==> #[trigger] sp[j].1 == sp[j + 1].0
            &&& sp.len() >= bs.len() - 1
            &&& (sp.len() > 0 && sp.last().1 == n) <==> n - bs.last() >= min_size
        }),
{
    lemma_boundaries_ordered(signals, min_size, max_size);
    let n = signals.len();
    let bs = boundaries_of(signals, min_size, max_size);
    let sp = spans_of(bs, n, min_size);
    assert forall|j: int| 0 <= j < sp.len() implies #[trigger] sp[j].0 < sp[j].1 <= n by {
        if j < bs.len() - 1 {
            assert(bs[j + 1] < n);
        }
    }
    if sp.len() > 0 && sp.last().1 == n {
        if !(bs.last() < n && n - bs.last() >= min_size) {
            assert(sp.last() == (bs[sp.len() - 1], bs[sp.len() as int]));
            assert(bs[sp.len() as int] < n);
        }
    }
}

/// The boundaries of a semantic segmentation: each spike among the
/// distances between consecutive sentences (`spikes[i]` for the distance
/// between sentences `i` and `i + 1`) starts an event at sentence `i + 1`
/// once the current event has at least `min_size` sentences.
pub open spec fn semantic_scan(spikes: Seq<bool>, min_size: nat, k: nat) -> (Seq<nat>, nat)
    decreases k,
{
    if k == 0 {
        (seq![0nat], 0nat)
    } else {
        let (bs, last) = semantic_scan(spikes, min_size, (k - 1) as nat);
        let i = (k - 1) as nat;
        if spikes[i as int] && i + 1 - last >= min_size {
            (bs.push(i + 1), i + 1)
        } else {
            (bs, last)
        }
    }
}

/// The boundaries of a semantic segmentation.
pub fn semantic_boundaries(spikes: &Vec<bool>, min_size: usize) -> (b: Vec<usize>)
    requires
        spikes@.len() < usize::MAX,
    ensures
        b@.map_values(|x: usize| x as nat) == semantic_scan(spikes@, min_size as nat, spikes@.len()).0,
{
    let mut b: Vec<usize> = Vec::new();
    b.push(0);
    let mut last: usize = 0;
    let mut i: usize = 0;
    assert(b@.map_values(|x: usize| x as nat) =~= seq![0nat]);
    while i < spikes.len()
        invariant
            spikes@.len() < usize::MAX,
            0 <= i <= spikes@.len(),
            last <= i,
            (b@.map_values(|x: usize| x as nat), last as nat) == semantic_scan(
                spikes@,
                min_size as nat,
                i as nat,
            ),
        decreases spikes.len() - i,
    {
        if spikes[i] && i + 1 - last >= min_size {
            let ghost before = b@;
            b.push(i + 1);
            last = i + 1;
            proof {
                assert(b@.map_values(|x: usize| x as nat) =~= before.map_values(|x: usize| x as nat).push(
                    (i + 1) as nat,
                ));
            }
        }
        i = i + 1;
    }
    b
}

// ---------------------------------------------------------------------------
// Boundary refinement
// ---------------------------------------------------------------------------

/// The community of position `i` under boundary positions `bs`: how many
/// positions `1..=i` are boundaries.
pub open spec fn community_at(bs: Seq<usize>, i: nat) -> nat
    decreases i,
{
    if i == 0 {
        0
    } else {
        community_at(bs, (i - 1) as nat) + if bs.contains(i as usize) {
            1nat
        } else {
            0nat
        }
    }
}

/// Whether `x` is among `v`.
fn contains_position(v: &[usize], x: usize) -> (r: bool)
    ensures
        r == v@.contains(x),
{
    let mut i: usize = 0;
    while i < v.len()
        invariant
            0 <= i <= v@.len(),
            forall|j: int| 0 <= j < i ==> v@[j] != x,
        decreases v.len() - i,
    {
        if v[i] == x {
            return true;
        }
        i = i + 1;
    }
    false
}

/// The community label of each of `n` positions: a new community begins at
/// every boundary after position 0.
pub fn community_labels(n: usize, boundaries: &[usize]) -> (labels: Vec<usize>)
    ensures
        labels@.len() == n,
        forall|i: int| 0 <= i < n ==> labels@[i] == community_at(boundaries@, i as nat),
{
    let mut labels: Vec<usize> = Vec::new();
    let mut current: usize = 0;
    let mut i: usize = 0;
    while i < n
        invariant
            0 <= i <= n,
            labels@.len() == i,
            current <= i,
            i > 0 ==> current == community_at(boundaries@, (i - 1) as nat),
            i == 0 ==> current == 0,
            forall|j: int| 0 <= j < i ==> labels@[j] == community_at(boundaries@, j as nat),
        decreases n - i,
    {
        proof {
            lemma_community_at_bound(boundaries@, i as nat);
        }
        if i > 0 && contains_position(boundaries, i) {
            current = current + 1;
        }
        labels.push(current);
        i = i + 1;
    }
    labels
}

proof fn lemma_community_at_bound(bs: Seq<usize>, i: nat)
    ensures
        community_at(bs, i) <= i,
    decreases i,
{
    if i > 0 {
        lemma_community_at_bound(bs, (i - 1) as nat);
    }
}

/// The span that boundary `i` opens: up to the next boundary, or to the end.
pub open spec fn opened_span(bs: Seq<usize>, n: nat, i: int) -> (nat, nat) {
    (bs[i] as nat, if i + 1 < bs.len() {
        bs[i + 1] as nat
    } else {
        n
    })
}

/// The non-empty spans inside `0..n` opened by the first `k` boundaries.
pub open spec fn refined_spans_upto(bs: Seq<usize>, n: nat, k: nat) -> Seq<(nat, nat)>
    decreases k,
{
    if k == 0 {
        seq![]
    } else {
        let rest = refined_spans_upto(bs, n, (k - 1) as nat);
        let p = opened_span(bs, n, k - 1);
        if p.0 < p.1 && p.1 <= n {
            rest.push(p)
        } else {
            rest
        }
    }
}

/// The token spans of the events after refinement: each boundary opens a
/// span to the next boundary (the last one to the end), and only non-empty
/// spans inside the tokens are kept.
pub fn refined_spans(boundaries: &[usize], token_count: usize) -> (spans: Vec<(usize, usize)>)
    ensures
        spans@.map_values(|p: (usize, usize)| (p.0 as nat, p.1 as nat)) == refined_spans_upto(
            boundaries@,
            token_count as nat,
            boundaries@.len() as nat,
        ),
{
    let mut spans: Vec<(usize, usize)> = Vec::new();
    let mut i: usize = 0;
    while i < boundaries.len()
        invariant
            0 <= i <= boundaries@.len(),
            spans@.map_values(|p: (usize, usize)| (p.0 as nat, p.1 as nat)) == refined_spans_upto(
                boundaries@,
                token_count as nat,
                i as nat,
            ),
        decreases boundaries.len() - i,
    {
        let start = boundaries[i];
        let end = if i + 1 < boundaries.len() {
            boundaries[i + 1]
        } else {
            token_count
        };
        if start < end && end <= token_count {
            let ghost before = spans@;
            spans.push((start, end));
            proof {
                assert(spans@.map_values(|p: (usize, usize)| (p.0 as nat, p.1 as nat)) =~= before.map_values(
                    |p: (usize, usize)| (p.0 as nat, p.1 as nat),
                ).push((start as nat, end as nat)));
            }
        }
        i = i + 1;
    }
    spans
}

/// The positions a boundary may move to while refining: within `range` of
/// its position, at least `min_size` after the previous boundary and, when
/// there is a next boundary, at least `min_size` before it, else at most the
/// number of positions.  The window is `start..=end`, empty when `start > end`.
pub open spec fn refinement_window_of(
    prev: nat,
    pos: nat,
    next: Option<nat>,
    min_size: nat,
    range: nat,
    n: nat,
) -> (nat, nat) {
    let min_pos = prev + min_size;
    let max_pos = match next {
        Some(b) => if b >= min_size {
            (b - min_size) as nat
        } else {
            0nat
        },
        None => n,
    };
    let low = if pos >= range {
        (pos - range) as nat
    } else {
        0nat
    };
    (if low >= min_pos {
        low
    } else {
        min_pos
    }, if pos + range <= max_pos {
        pos + range
    } else {
        max_pos
    })
}

/// The window of positions a boundary may move to while refining.
pub fn refinement_window(
    prev: usize,
    pos: usize,
    next: Option<usize>,
    min_size: usize,
    range: usize,
    n: usize,
) -> (w: (usize, usize))
    requires
        prev + min_size <= usize::MAX,
        pos + range <= usize::MAX,
    ensures
        (w.0 as nat, w.1 as nat) == refinement_window_of(
            prev as nat,
            pos as nat,
            match next {
                Some(b) => Some(b as nat),
                None => None,
            },
            min_size as nat,
            range as nat,
            n as nat,
        ),
{
    let min_pos = prev + min_size;
    let max_pos = match next {
        Some(b) => b.saturating_sub(min_size),
        None => n,
    };
    let low = pos.saturating_sub(range);
    let start = if low >= min_pos {
        low
    } else {
        min_pos
    };
    let end = if pos + range <= max_pos {
        pos + range
    } else {
        max_pos
    };
    (start, end)
}

} // verus!
