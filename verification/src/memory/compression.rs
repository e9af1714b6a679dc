//! Memory compression: which events are merged together, what a merged
//! event says when the model gives no usable summary, which layer it lands
//! in, and the counts a compression run reports.
//!
//! Whether two events are similar enough to merge is judged elsewhere (on
//! their embeddings) and handed in as a matrix of answers.

use vstd::prelude::*;

use crate::graph::node::{joined, string_views};
use crate::llm::ChatMessage;
use crate::memory::types::{CompressionResult, MemoryLayer};
use crate::text::{decimal, push_decimal, push_str, to_owned_string, trim, trim_str};

verus! {

broadcast use vstd::string::group_string_axioms;

// ---------------------------------------------------------------------------
// Grouping
// ---------------------------------------------------------------------------

/// The events after `i` (from `j` on) that join the group led by `i`: not
/// yet used and similar to `i`.
pub open spec fn members(sim: Seq<Seq<bool>>, used: Set<nat>, i: nat, j: nat) -> Seq<nat>
    decreases sim.len() - j,
{
    if j >= sim.len() {
        seq![]
    } else if !used.contains(j) && sim[i as int][j as int] {
        seq![j] + members(sim, used, i, j + 1)
    } else {
        members(sim, used, i, j + 1)
    }
}

/// The groups formed from the first `k` events, and the events used.
pub open spec fn grouping(sim: Seq<Seq<bool>>, k: nat) -> (Seq<Seq<nat>>, Set<nat>)
    decreases k,
{
    if k == 0 {
        (seq![], Set::empty())
    } else {
        let (gs, used) = grouping(sim, (k - 1) as nat);
        let i = (k - 1) as nat;
        if used.contains(i) {
            (gs, used)
        } else {
            let g = seq![i] + members(sim, used, i, i + 1);
            if g.len() >= 2 {
                (gs.push(g), used.union(g.to_set()))
            } else {
                (gs, used)
            }
        }
    }
}

/// The square matrix of answers, one row per event.
pub open spec fn square(sim: Seq<Seq<bool>>) -> bool {
    forall|i: int| 0 <= i < sim.len() ==> (#[trigger] sim[i]).len() == sim.len()
}

/// The merge groups: each event not yet in a group leads a group with the
/// later unused events similar to it; groups of one are dropped.
pub fn group_candidates(similar: &Vec<Vec<bool>>) -> (groups: Vec<Vec<usize>>)
    requires
        square(similar@.map_values(|r: Vec<bool>| r@)),
    ensures
        groups@.map_values(|g: Vec<usize>| g@.map_values(|x: usize| x as nat)) == grouping(
            similar@.map_values(|r: Vec<bool>| r@),
            similar@.len() as nat,
        ).0,
{
    let ghost sim = similar@.map_values(|r: Vec<bool>| r@);
    let n = similar.len();
    let mut used: Vec<bool> = Vec::new();
    let mut u: usize = 0;
    while u < n
        invariant
            0 <= u <= n,
            used@.len() == u,
            forall|x: int| 0 <= x < u ==> !used@[x],
        decreases n - u,
    {
        used.push(false);
        u = u + 1;
    }
    let mut groups: Vec<Vec<usize>> = Vec::new();
    let mut i: usize = 0;
    while i < n
        invariant
            n == similar@.len(),
            sim == similar@.map_values(|r: Vec<bool>| r@),
            square(sim),
            used@.len() == n,
            0 <= i <= n,
            groups@.map_values(|g: Vec<usize>| g@.map_values(|x: usize| x as nat)) == grouping(
                sim,
                i as nat,
            ).0,
            forall|x: int| 0 <= x < n ==> used@[x] == grouping(sim, i as nat).1.contains(x as nat),
        decreases n - i,
    {
        let ghost used_set = grouping(sim, i as nat).1;
        assert(used@[i as int] == used_set.contains(i as nat));
        if !used[i] {
            let mut group: Vec<usize> = Vec::new();
            group.push(i);
            let mut j: usize = i + 1;
            assert(sim[i as int] == similar@[i as int]@);
            proof {
                assert(group@.map_values(|x: usize| x as nat) + members(sim, used_set, i as nat, j as nat)
                    =~= seq![i as nat] + members(sim, used_set, i as nat, (i + 1) as nat));
            }
            while j < n
                invariant
                    n == similar@.len(),
                    sim == similar@.map_values(|r: Vec<bool>| r@),
                    square(sim),
                    i < n,
                    used@.len() == n,
                    i + 1 <= j <= n,
                    forall|x: int| 0 <= x < n ==> used@[x] == used_set.contains(x as nat),
                    group@.map_values(|x: usize| x as nat) + members(sim, used_set, i as nat, j as nat)
                        == seq![i as nat] + members(sim, used_set, i as nat, (i + 1) as nat),
                    forall|k: int| 0 <= k < group@.len() ==> #[trigger] group@[k] < j,
                decreases n - j,
            {
                let row = &similar[i];
                assert(row@ == sim[i as int]);
                assert(row@.len() == n);
                if !used[j] && row[j] {
                    let ghost before = group@.map_values(|x: usize| x as nat);
                    group.push(j);
                    proof {
                        assert(group@.map_values(|x: usize| x as nat) =~= before.push(j as nat));
                        assert(before.push(j as nat) + members(sim, used_set, i as nat, (j + 1) as nat)
                            =~= before + (seq![j as nat] + members(sim, used_set, i as nat, (j + 1) as nat)));
                    }
                }
                j = j + 1;
            }
            proof {
                assert(members(sim, used_set, i as nat, n as nat) =~= Seq::<nat>::empty());
                assert(group@.map_values(|x: usize| x as nat) =~= seq![i as nat] + members(
                    sim,
                    used_set,
                    i as nat,
                    (i + 1) as nat,
                ));
            }
            if group.len() >= 2 {
                let ghost g = group@.map_values(|x: usize| x as nat);
                let mut k: usize = 0;
                while k < group.len()
                    invariant
                        used@.len() == n,
                        0 <= k <= group@.len(),
                        g == group@.map_values(|x: usize| x as nat),
                        forall|t: int| 0 <= t < group@.len() ==> #[trigger] group@[t] < n,
                        forall|x: int|
                            0 <= x < n ==> used@[x] == (used_set.contains(x as nat) || g.take(
                                k as int,
                            ).contains(x as nat)),
                    decreases group.len() - k,
                {
                    let idx = group[k];
                    used.set(idx, true);
                    proof {
                        assert forall|x: int| 0 <= x < n implies used@[x] == (used_set.contains(
                            x as nat,
                        ) || g.take(k + 1).contains(x as nat)) by {
                            assert(g.take(k + 1) =~= g.take(k as int).push(idx as nat));
                            assert(g[k as int] == idx as nat);
                            if x == idx as int {
                                assert(g.take(k + 1)[k as int] == x as nat);
                            } else {
                                if g.take(k as int).contains(x as nat) {
                                    let w = choose|w: int| 0 <= w < k && g.take(k as int)[w] == x as nat;
                                    assert(g.take(k + 1)[w] == x as nat);
                                }
                                let t1 = g.take(k + 1);
                                if t1.contains(x as nat) {
                                    let w = choose|w: int| 0 <= w < t1.len() && t1[w] == x as nat;
                                    assert(w != k as int);
                                    assert(g.take(k as int)[w] == x as nat);
                                }
                            }
                        }
                    }
                    k = k + 1;
                }
                proof {
                    assert(g.take(group@.len() as int) =~= g);
                    assert forall|x: int| 0 <= x < n implies used@[x] == used_set.union(g.to_set()).contains(
                        x as nat,
                    ) by {
                        if g.contains(x as nat) {
                            assert(g.to_set().contains(x as nat));
                        }
                        if g.to_set().contains(x as nat) {
                            assert(g.contains(x as nat));
                        }
                    }
                }
                let ghost before = groups@.map_values(|h: Vec<usize>| h@.map_values(|x: usize| x as nat));
                groups.push(group);
                proof {
                    assert(groups@.map_values(|h: Vec<usize>| h@.map_values(|x: usize| x as nat)) =~= before.push(g));
                }
            }
        }
        i = i + 1;
    }
    groups
}

/// `x` is a member of one of the groups.
pub open spec fn grouped(gs: Seq<Seq<nat>>, x: nat) -> bool {
    exists|a: int, t: int| 0 <= a < gs.len() && 0 <= t < gs[a].len() && gs[a][t] == x
}

proof fn lemma_members(sim: Seq<Seq<bool>>, used: Set<nat>, i: nat, j: nat)
    requires
        i < sim.len(),
    ensures
        forall|t: int|
            0 <= t < members(sim, used, i, j).len() ==> {
                &&& j <= #[trigger] members(sim, used, i, j)[t] < sim.len()
                &&& !used.contains(members(sim, used, i, j)[t])
                &&& sim[i as int][members(sim, used, i, j)[t] as int]
            },
        forall|t: int|
            0 < t < members(sim, used, i, j).len() ==> members(sim, used, i, j)[t - 1]
                < #[trigger] members(sim, used, i, j)[t],
    decreases sim.len() - j,
{
    if j < sim.len() {
        lemma_members(sim, used, i, j + 1);
        let rest = members(sim, used, i, j + 1);
        if !used.contains(j) && sim[i as int][j as int] {
            let m = members(sim, used, i, j);
            assert(m == seq![j] + rest);
            assert forall|t: int| 0 < t < m.len() implies m[t - 1] < #[trigger] m[t] by {
                if t > 1 {
                    assert(m[t - 1] == rest[t - 2]);
                    assert(m[t] == rest[t - 1]);
                } else {
                    assert(m[t] == rest[0]);
                }
            }
            assert forall|t: int| 0 <= t < m.len() implies {
                &&& j <= #[trigger] m[t] < sim.len()
                &&& !used.contains(m[t])
                &&& sim[i as int][m[t] as int]
            } by {
                if t > 0 {
                    assert(m[t] == rest[t - 1]);
                }
            }
        }
    }
}

/// The groups of the first `k` events: each has at least two members in
/// increasing order, every member follows and is similar to the group's
/// first event, no event is in two groups, and the events used are those in
/// groups.
#[verifier::rlimit(60)]
proof fn lemma_grouping(sim: Seq<Seq<bool>>, k: nat)
    requires
        k <= sim.len(),
    ensures
        ({
            let (gs, used) = grouping(sim, k);
            &&& forall|a: int| 0 <= a < gs.len() ==> (#[trigger] gs[a]).len() >= 2
            &&& forall|a: int, t: int|
                0 <= a < gs.len() && 0 <= t < gs[a].len() ==> #[trigger] gs[a][t] < sim.len()
            &&& forall|a: int, t: int|
                0 <= a < gs.len() && 0 < t < gs[a].len() ==> gs[a][t - 1] < #[trigger] gs[a][t]
            &&& forall|a: int, t: int|
                0 <= a < gs.len() && 0 < t < gs[a].len() ==> sim[gs[a][0] as int][#[trigger] gs[a][t] as int]
            &&& forall|x: nat| used.contains(x) <==> grouped(gs, x)
            &&& forall|a: int, b: int, s: int, t: int|
                0 <= a < b < gs.len() && 0 <= s < gs[a].len() && 0 <= t < gs[b].len() ==> #[trigger] gs[a][s]
                    != #[trigger] gs[b][t]
        }),
    decreases k,
{
    if k > 0 {
        lemma_grouping(sim, (k - 1) as nat);
        let (gs0, used0) = grouping(sim, (k - 1) as nat);
        let i = (k - 1) as nat;
        if !used0.contains(i) {
            lemma_members(sim, used0, i, i + 1);
            let ms = members(sim, used0, i, i + 1);
            let g = seq![i] + ms;
            if g.len() >= 2 {
                let gs = gs0.push(g);
                let used = used0.union(g.to_set());
                assert(grouping(sim, k) == (gs, used));
                assert forall|t: int| 0 <= t < g.len() implies !used0.contains(#[trigger] g[t]) && g[t]
                    >= i && g[t] < sim.len() by {
                    if t > 0 {
                        assert(g[t] == ms[t - 1]);
                    }
                }
                assert forall|t: int| 0 < t < g.len() implies g[t - 1] < #[trigger] g[t] && sim[g[0] as int][g[t] as int] by {
                    assert(g[t] == ms[t - 1]);
                    if t > 1 {
                        assert(g[t - 1] == ms[t - 2]);
                    }
                }
                assert forall|x: nat| used.contains(x) <==> grouped(gs, x) by {
                    if used0.contains(x) {
                        let (a, t) = choose|a: int, t: int|
                            0 <= a < gs0.len() && 0 <= t < gs0[a].len() && gs0[a][t] == x;
                        assert(gs[a] == gs0[a]);
                    } else if g.to_set().contains(x) {
                        assert(g.contains(x));
                        let t = choose|t: int| 0 <= t < g.len() && g[t] == x;
                        assert(gs[gs0.len() as int] == g);
                    }
                    if grouped(gs, x) {
                        let (a, t) = choose|a: int, t: int|
                            0 <= a < gs.len() && 0 <= t < gs[a].len() && gs[a][t] == x;
                        if a < gs0.len() {
                            assert(gs[a] == gs0[a]);
                            assert(grouped(gs0, x));
                        } else {
                            assert(gs[a] == g);
                            assert(g.contains(x));
                            assert(g.to_set().contains(x));
                        }
                    }
                }
                assert forall|a: int, t: int| 0 <= a < gs.len() && 0 <= t < gs[a].len() implies #[trigger] gs[a][t]
                    < sim.len() by {
                    if a < gs0.len() {
                        assert(gs[a] == gs0[a]);
                    } else {
                        assert(gs[a] == g);
                        if t > 0 {
                            assert(g[t] == ms[t - 1]);
                            assert(ms[t - 1] < sim.len());
                        }
                    }
                }
                assert forall|a: int, b: int, s: int, t: int|
                    0 <= a < b < gs.len() && 0 <= s < gs[a].len() && 0 <= t < gs[b].len() implies #[trigger] gs[a][s]
                        != #[trigger] gs[b][t] by {
                    assert(gs[a] == gs0[a]);
                    if b < gs0.len() {
                        assert(gs[b] == gs0[b]);
                    } else {
                        assert(gs[b] == g);
                        assert(grouped(gs0, gs0[a][s]));
                        assert(used0.contains(gs0[a][s]));
                        assert(!used0.contains(g[t]));
                    }
                }
                assert forall|a: int| 0 <= a < gs.len() implies (#[trigger] gs[a]).len() >= 2 by {
                    if a < gs0.len() {
                        assert(gs[a] == gs0[a]);
                    }
                }
                assert forall|a: int, t: int| 0 <= a < gs.len() && 0 < t < gs[a].len() implies gs[a][t - 1]
                    < #[trigger] gs[a][t] by {
                    if a < gs0.len() {
                        assert(gs[a] == gs0[a]);
                    }
                }
                assert forall|a: int, t: int|
                    0 <= a < gs.len() && 0 < t < gs[a].len() implies sim[gs[a][0] as int][#[trigger] gs[a][t] as int] by {
                    if a < gs0.len() {
                        assert(gs[a] == gs0[a]);
                    }
                }
            }
        }
    }
}

/// Merge groups never overlap; each has at least two members listed in
/// increasing order; and every member after the first is similar to the
/// first.
pub proof fn lemma_groups_are_disjoint_and_similar(sim: Seq<Seq<bool>>)
    ensures
        ({
            let gs = grouping(sim, sim.len()).0;
            &&& forall|a: int| 0 <= a < gs.len() ==> (#[trigger] gs[a]).len() >= 2
            &&& forall|a: int, t: int|
                0 <= a < gs.len() && 0 <= t < gs[a].len() ==> #[trigger] gs[a][t] < sim.len()
            &&& forall|a: int, t: int|
                0 <= a < gs.len() && 0 < t < gs[a].len() ==> gs[a][t - 1] < #[trigger] gs[a][t]
            &&& forall|a: int, t: int|
                0 <= a < gs.len() && 0 < t < gs[a].len() ==> sim[gs[a][0] as int][#[trigger] gs[a][t] as int]
            &&& forall|a: int, b: int, s: int, t: int|
                0 <= a < b < gs.len() && 0 <= s < gs[a].len() && 0 <= t < gs[b].len() ==> #[trigger] gs[a][s]
                    != #[trigger] gs[b][t]
        }),
{
    lemma_grouping(sim, sim.len());
}

// ---------------------------------------------------------------------------
// Merging a group
// ---------------------------------------------------------------------------

/// The non-blank contents, trimmed.
pub open spec fn nonblank_contents(cs: Seq<Seq<char>>) -> Seq<Seq<char>>
    decreases cs.len(),
{
    if cs.len() == 0 {
        seq![]
    } else if trim(cs.last()).len() > 0 {
        nonblank_contents(cs.drop_last()).push(trim(cs.last()))
    } else {
        nonblank_contents(cs.drop_last())
    }
}

/// The merged text when the model gives none: the non-blank contents,
/// trimmed, separated by `---` lines.
pub fn fallback_merge_content(contents: &Vec<String>) -> (out: String)
    ensures
        out@ == joined(nonblank_contents(string_views(contents@)), "\n---\n"@),
{
    let ghost cs = string_views(contents@);
    let mut parts: Vec<String> = Vec::new();
    let mut i: usize = 0;
    while i < contents.len()
        invariant
            cs == string_views(contents@),
            0 <= i <= contents@.len(),
            string_views(parts@) == nonblank_contents(cs.take(i as int)),
        decreases contents.len() - i,
    {
        proof {
            assert(cs.take(i + 1).drop_last() =~= cs.take(i as int));
            assert(cs.take(i + 1).last() == contents@[i as int]@);
        }
        let t = trim_str(contents[i].as_str());
        if t.unicode_len() > 0 {
            let ghost before = string_views(parts@);
            parts.push(t);
            proof {
                assert(string_views(parts@) =~= before.push(t@));
            }
        }
        i = i + 1;
    }
    assert(cs.take(contents@.len() as int) =~= cs);
    crate::graph::node::join_strings(&parts, "\n---\n")
}

/// The merged text: the model's summary when it has text, else the
/// fallback merge.
pub fn merged_content(summary: Option<String>, contents: &Vec<String>) -> (out: String)
    ensures
        out@ == match summary {
            Some(s) if trim(s@).len() > 0 => s@,
            _ => joined(nonblank_contents(string_views(contents@)), "\n---\n"@),
        },
{
    match summary {
        Some(s) => if trim_str(s.as_str()).unicode_len() > 0 {
            s
        } else {
            fallback_merge_content(contents)
        },
        None => fallback_merge_content(contents),
    }
}

/// `"[<i+1>] <content>"` for each content, separated by blank lines.
pub open spec fn numbered_memories(cs: Seq<Seq<char>>) -> Seq<char> {
    joined(Seq::new(cs.len(), |i: int| "["@ + decimal((i + 1) as nat) + "] "@ + cs[i]), "\n\n"@)
}

/// The system prompt of the merging call.
pub open spec fn fusion_system_prompt() -> Seq<char> {
    "あなたは会話メモリ圧縮エンジンです。重複や表現揺れを統合し、矛盾がある場合は最新情報を優先してください。"@
}

/// The request that asks the model to merge a group of memories: the
/// compression instruction, then the memories numbered from 1.
pub fn fusion_messages(contents: &Vec<String>) -> (m: Vec<ChatMessage>)
    ensures
        m@.len() == 2,
        m@[0].role@ == "system"@,
        m@[0].content@ == fusion_system_prompt(),
        m@[1].role@ == "user"@,
        m@[1].content@ == "以下のメモリ群を1つの短い統合メモリにまとめてください。事実は保持し、冗長性を除去してください。\n\n"@
            + numbered_memories(string_views(contents@)),
{
    let ghost cs = string_views(contents@);
    let ghost items = Seq::new(cs.len(), |i: int| "["@ + decimal((i + 1) as nat) + "] "@ + cs[i]);
    let mut lines: Vec<String> = Vec::new();
    let mut i: usize = 0;
    while i < contents.len()
        invariant
            cs == string_views(contents@),
            items == Seq::new(cs.len(), |i: int| "["@ + decimal((i + 1) as nat) + "] "@ + cs[i]),
            0 <= i <= contents@.len(),
            string_views(lines@) == items.take(i as int),
        decreases contents.len() - i,
    {
        let mut line = to_owned_string("[");
        push_decimal(&mut line, i + 1);
        push_str(&mut line, "] ");
        push_str(&mut line, contents[i].as_str());
        let ghost before = string_views(lines@);
        lines.push(line);
        proof {
            assert(cs[i as int] == contents@[i as int]@);
            assert(string_views(lines@) =~= before.push(line@));
            assert(items.take(i + 1) =~= items.take(i as int).push(items[i as int]));
        }
        i = i + 1;
    }
    assert(items.take(contents@.len() as int) =~= items);
    let body = crate::graph::node::join_strings(&lines, "\n\n");
    let mut user = to_owned_string(
        "以下のメモリ群を1つの短い統合メモリにまとめてください。事実は保持し、冗長性を除去してください。\n\n",
    );
    push_str(&mut user, body.as_str());
    let mut m: Vec<ChatMessage> = Vec::new();
    m.push(
        ChatMessage::new_text(
            "system",
            to_owned_string(
                "あなたは会話メモリ圧縮エンジンです。重複や表現揺れを統合し、矛盾がある場合は最新情報を優先してください。",
            ),
        ),
    );
    m.push(ChatMessage::new_text("user", user));
    m
}

/// A merged memory is long-term when any of its sources was.
pub fn merged_layer(layers: &Vec<MemoryLayer>) -> (l: MemoryLayer)
    ensures
        l == if layers@.contains(MemoryLayer::LML) {
            MemoryLayer::LML
        } else {
            MemoryLayer::SML
        },
{
    let mut i: usize = 0;
    while i < layers.len()
        invariant
            0 <= i <= layers@.len(),
            forall|j: int| 0 <= j < i ==> layers@[j] != MemoryLayer::LML,
        decreases layers.len() - i,
    {
        if layers[i] == MemoryLayer::LML {
            assert(layers@[i as int] == MemoryLayer::LML);
            return MemoryLayer::LML;
        }
        i = i + 1;
    }
    MemoryLayer::SML
}

/// A compression run over fewer than two events merges nothing.
pub fn nothing_to_compress(scanned: usize) -> (r: Option<CompressionResult>)
    ensures
        scanned < 2 ==> (r matches Some(c) && c.scanned_events == scanned && c.merged_groups == 0
            && c.replaced_events == 0 && c.created_events == 0),
        scanned >= 2 ==> r is None,
{
    if scanned < 2 {
        Some(CompressionResult { scanned_events: scanned, merged_groups: 0, replaced_events: 0, created_events: 0 })
    } else {
        None
    }
}

/// Counts one merged group that replaced `deleted` events.
pub fn count_merge(result: &mut CompressionResult, deleted: usize)
    requires
        old(result).merged_groups < usize::MAX,
        old(result).created_events < usize::MAX,
        old(result).replaced_events + deleted <= usize::MAX,
    ensures
        final(result).scanned_events == old(result).scanned_events,
        final(result).merged_groups == old(result).merged_groups + 1,
        final(result).replaced_events == old(result).replaced_events + deleted,
        final(result).created_events == old(result).created_events + 1,
{
    result.merged_groups = result.merged_groups + 1;
    result.replaced_events = result.replaced_events + deleted;
    result.created_events = result.created_events + 1;
}

} // verus!
