//! The reachable-call-graph walker.
//!
//! The frontend hands the core one record per local function: the call
//! sites in its body, in body order, each naming its callee (another local
//! function, or a foreign one) and its source span. The walker explores
//! breadth-first from the entry-point set and produces, for each function
//! reached, one witness path of `(caller, call span)` edges back to an
//! entry point and the function's outgoing calls grouped by callee.
//!
//! First visit wins, so the walk terminates on cyclic call graphs and
//! each reachable function is reported exactly once.

use vstd::prelude::*;
use std::collections::VecDeque;
use crate::spans::SrcSpan;

verus! {

/// A call target: a local function by index, or a foreign one by an
/// opaque identifier.
#[derive(Debug, Clone, Copy, PartialEq, Eq, Structural)]
pub enum CalleeId {
    Local(usize),
    Foreign(u64),
}

/// One call site in a function body.
#[derive(Debug, Clone, Copy, PartialEq, Eq, Structural)]
pub struct CallSite {
    pub callee: CalleeId,
    pub span: SrcSpan,
}

/// The local program's call sites: one list per local function, in body
/// order.
#[derive(Debug)]
pub struct CallGraph {
    pub calls: Vec<Vec<CallSite>>,
}

/// The mathematical view of a call graph: one call-site sequence per
/// local function.
pub open spec fn graph_view(calls: Seq<Vec<CallSite>>) -> Seq<Seq<CallSite>> {
    calls.map_values(|v: Vec<CallSite>| v@)
}

/// Every local callee index is a function of the graph.
pub open spec fn graph_wf(gv: Seq<Seq<CallSite>>) -> bool {
    forall|f: int, k: int|
        0 <= f < gv.len() && 0 <= k < gv[f].len() ==> match #[trigger] gv[f][k].callee {
            CalleeId::Local(j) => j < gv.len(),
            CalleeId::Foreign(_) => true,
        }
}

/// Function `a`'s body calls local function `b` at span `sp`.
pub open spec fn has_call(gv: Seq<Seq<CallSite>>, a: usize, b: usize, sp: SrcSpan) -> bool {
    a < gv.len() && exists|k: int|
        0 <= k < gv[a as int].len() && #[trigger] gv[a as int][k] == (CallSite {
            callee: CalleeId::Local(b),
            span: sp,
        })
}

/// Function `a`'s body calls local function `b` somewhere.
pub open spec fn has_edge(gv: Seq<Seq<CallSite>>, a: usize, b: usize) -> bool {
    exists|sp: SrcSpan| has_call(gv, a, b, sp)
}

/// `through` is a valid witness path: it starts at an entry point, each
/// step is a real call site, and its last step calls `reach` (a path of
/// length zero means `reach` is itself an entry point).
pub open spec fn valid_path(
    gv: Seq<Seq<CallSite>>,
    entries: Seq<usize>,
    through: Seq<(usize, SrcSpan)>,
    reach: usize,
) -> bool {
    if through.len() == 0 {
        entries.contains(reach)
    } else {
        &&& entries.contains(through[0].0)
        &&& forall|i: int|
            0 <= i < through.len() ==> has_call(
                gv,
                (#[trigger] through[i]).0,
                if i + 1 < through.len() {
                    through[i + 1].0
                } else {
                    reach
                },
                through[i].1,
            )
    }
}

/// A function is reachable when some valid witness path leads to it.
pub open spec fn spec_reachable(
    gv: Seq<Seq<CallSite>>,
    entries: Seq<usize>,
    f: usize,
) -> bool {
    exists|t: Seq<(usize, SrcSpan)>| valid_path(gv, entries, t, f)
}

/// The set of functions reachable from the entry points.
pub open spec fn reachable_set(gv: Seq<Seq<CallSite>>, entries: Seq<usize>) -> Set<usize> {
    Set::new(|f: usize| f < gv.len() && spec_reachable(gv, entries, f))
}

/// A valid path extended by one real call site is a valid path to the
/// callee.
pub proof fn lemma_valid_path_extend(
    gv: Seq<Seq<CallSite>>,
    entries: Seq<usize>,
    t: Seq<(usize, SrcSpan)>,
    f: usize,
    j: usize,
    sp: SrcSpan,
)
    requires
        valid_path(gv, entries, t, f),
        has_call(gv, f, j, sp),
    ensures
        valid_path(gv, entries, t.push((f, sp)), j),
{
    let t2 = t.push((f, sp));
    if t.len() == 0 {
        assert(t2[0].0 == f);
        assert(entries.contains(t2[0].0));
        assert forall|i: int| 0 <= i < t2.len() implies has_call(
            gv,
            (#[trigger] t2[i]).0,
            if i + 1 < t2.len() {
                t2[i + 1].0
            } else {
                j
            },
            t2[i].1,
        ) by {
            assert(i == 0);
        }
    } else {
        assert(t2[0].0 == t[0].0);
        assert forall|i: int| 0 <= i < t2.len() implies has_call(
            gv,
            (#[trigger] t2[i]).0,
            if i + 1 < t2.len() {
                t2[i + 1].0
            } else {
                j
            },
            t2[i].1,
        ) by {
            if i < t.len() - 1 {
                assert(t2[i] == t[i]);
                assert(t2[i + 1] == t[i + 1]);
            } else if i == t.len() - 1 {
                assert(t2[i] == t[i]);
                assert(t2[i + 1].0 == f);
            } else {
                assert(i == t.len());
                assert(t2[i] == (f, sp));
            }
        }
    }
}

/// The spans of the sites `sites[i..]` whose callee is `c`, in order.
pub open spec fn callee_spans(sites: Seq<CallSite>, c: CalleeId, i: int) -> Seq<SrcSpan>
    decreases sites.len() - i,
{
    if i < 0 || i >= sites.len() {
        Seq::empty()
    } else {
        let rest = callee_spans(sites, c, i + 1);
        if sites[i].callee == c {
            seq![sites[i].span] + rest
        } else {
            rest
        }
    }
}

/// Whether `c` is already the callee of a site before index `i`.
pub open spec fn occurs_before(sites: Seq<CallSite>, c: CalleeId, i: int) -> bool {
    exists|j: int| 0 <= j < i && (#[trigger] sites[j]).callee == c
}

/// The calls of one body grouped by callee: one entry per distinct
/// callee, in first-occurrence order, holding that callee's spans in body
/// order.
pub open spec fn group_spec(sites: Seq<CallSite>, i: int) -> Seq<(CalleeId, Seq<SrcSpan>)>
    decreases sites.len() - i,
{
    if i < 0 || i >= sites.len() {
        Seq::empty()
    } else {
        let rest = group_spec(sites, i + 1);
        if occurs_before(sites, sites[i].callee, i) {
            rest
        } else {
            seq![(sites[i].callee, callee_spans(sites, sites[i].callee, 0))] + rest
        }
    }
}

/// The view of a grouped callee map.
pub open spec fn groups_view(g: Seq<(CalleeId, Vec<SrcSpan>)>) -> Seq<(CalleeId, Seq<SrcSpan>)> {
    g.map_values(|p: (CalleeId, Vec<SrcSpan>)| (p.0, p.1@))
}

/// Group one body's call sites by callee, as [`group_spec`] describes.
pub fn group_calls(sites: &Vec<CallSite>) -> (r: Vec<(CalleeId, Vec<SrcSpan>)>)
    ensures
        groups_view(r@) == group_spec(sites@, 0),
{
    let mut out: Vec<(CalleeId, Vec<SrcSpan>)> = Vec::new();
    let mut i: usize = 0;
    while i < sites.len()
        invariant
            i <= sites@.len(),
            group_spec(sites@, 0) == groups_view(out@) + group_spec(sites@, i as int),
        decreases sites@.len() - i,
    {
        let c = sites[i].callee;
        let mut seen = false;
        let mut j: usize = 0;
        while j < i
            invariant
                j <= i <= sites@.len(),
                c == sites@[i as int].callee,
                seen == exists|q: int| 0 <= q < j && (#[trigger] sites@[q]).callee == c,
            decreases i - j,
        {
            if sites[j].callee == c {
                seen = true;
            }
            j = j + 1;
        }
        let ghost pre = groups_view(out@);
        if !seen {
            let mut sps: Vec<SrcSpan> = Vec::new();
            let mut k: usize = 0;
            while k < sites.len()
                invariant
                    k <= sites@.len(),
                    c == sites@[i as int].callee,
                    i < sites@.len(),
                    callee_spans(sites@, c, 0) == sps@ + callee_spans(sites@, c, k as int),
                decreases sites@.len() - k,
            {
                let ghost spre = sps@;
                if sites[k].callee == c {
                    sps.push(sites[k].span);
                    proof {
                        assert(spre + callee_spans(sites@, c, k as int) =~= (spre + seq![
                            sites@[k as int].span,
                        ]) + callee_spans(sites@, c, k as int + 1));
                    }
                } else {
                    proof {
                        assert(spre + callee_spans(sites@, c, k as int) =~= spre + callee_spans(
                            sites@,
                            c,
                            k as int + 1,
                        ));
                    }
                }
                k = k + 1;
            }
            proof {
                assert(sps@ + callee_spans(sites@, c, k as int) =~= sps@);
            }
            out.push((c, sps));
            proof {
                assert(!occurs_before(sites@, c, i as int));
                assert(groups_view(out@) =~= pre + seq![(c, callee_spans(sites@, c, 0))]);
                assert(pre + group_spec(sites@, i as int) =~= (pre + seq![
                    (c, callee_spans(sites@, c, 0)),
                ]) + group_spec(sites@, i as int + 1));
            }
        } else {
            proof {
                assert(occurs_before(sites@, c, i as int));
                assert(pre + group_spec(sites@, i as int) =~= pre + group_spec(
                    sites@,
                    i as int + 1,
                ));
            }
        }
        i = i + 1;
    }
    proof {
        assert(groups_view(out@) + group_spec(sites@, i as int) =~= groups_view(out@));
    }
    out
}

/// The function a path's step `i` stands at: the caller of step `i`, or
/// the reached function just past the last step.
pub open spec fn path_node(t: Seq<(usize, SrcSpan)>, u: usize, i: int) -> usize {
    if i < t.len() {
        t[i].0
    } else {
        u
    }
}

/// Every prefix of a valid path is a valid path to the node it stops at.
proof fn lemma_prefix_valid(
    gv: Seq<Seq<CallSite>>,
    entries: Seq<usize>,
    t: Seq<(usize, SrcSpan)>,
    u: usize,
    i: int,
)
    requires
        valid_path(gv, entries, t, u),
        0 <= i <= t.len(),
    ensures
        valid_path(gv, entries, t.subrange(0, i), path_node(t, u, i)),
{
    let t2 = t.subrange(0, i);
    let u2 = path_node(t, u, i);
    if i == 0 {
        if t.len() == 0 {
            assert(entries.contains(u));
        } else {
            assert(entries.contains(t[0].0));
        }
    } else {
        assert(t2[0] == t[0]);
        assert(entries.contains(t2[0].0));
        assert forall|idx: int| 0 <= idx < t2.len() implies has_call(
            gv,
            (#[trigger] t2[idx]).0,
            if idx + 1 < t2.len() {
                t2[idx + 1].0
            } else {
                u2
            },
            t2[idx].1,
        ) by {
            assert(t2[idx] == t[idx]);
            if idx + 1 < i {
                assert(t2[idx + 1] == t[idx + 1]);
            } else {
                assert(idx == i - 1);
                if i < t.len() {
                    assert(u2 == t[i].0);
                } else {
                    assert(u2 == u);
                }
            }
        }
    }
}

/// One function found by the walk: the function, one witness path of
/// `(caller, call span)` edges back to an entry point, and the function's
/// outgoing calls grouped by callee.
#[derive(Debug)]
pub struct LocallyReachable {
    pub reach: usize,
    pub through: Vec<(usize, SrcSpan)>,
    pub calls_to: Vec<(CalleeId, Vec<SrcSpan>)>,
}

/// The number of functions not yet visited.
pub open spec fn unvisited_count(vs: Seq<bool>) -> nat
    decreases vs.len(),
{
    if vs.len() == 0 {
        0
    } else {
        unvisited_count(vs.drop_last()) + if vs.last() {
            0nat
        } else {
            1nat
        }
    }
}

/// Visiting one unvisited function decreases the unvisited count by one.
proof fn lemma_unvisited_update(vs: Seq<bool>, i: int)
    requires
        0 <= i < vs.len(),
        !vs[i],
    ensures
        unvisited_count(vs) >= 1,
        unvisited_count(vs.update(i, true)) == unvisited_count(vs) - 1,
    decreases vs.len(),
{
    let vs2 = vs.update(i, true);
    if i == vs.len() - 1 {
        assert(vs2.drop_last() =~= vs.drop_last());
    } else {
        lemma_unvisited_update(vs.drop_last(), i);
        assert(vs2.drop_last() =~= vs.drop_last().update(i, true));
        assert(vs2.last() == vs.last());
    }
}

/// Whether some queued candidate would visit `f`.
pub open spec fn in_queue(q: Seq<(usize, Vec<(usize, SrcSpan)>)>, f: usize) -> bool {
    exists|j: int| 0 <= j < q.len() && (#[trigger] q[j]).0 == f
}

/// A copy of a witness path.
pub fn copy_path(p: &Vec<(usize, SrcSpan)>) -> (r: Vec<(usize, SrcSpan)>)
    ensures
        r@ == p@,
{
    let mut out: Vec<(usize, SrcSpan)> = Vec::new();
    let mut i: usize = 0;
    while i < p.len()
        invariant
            i <= p@.len(),
            out@ == p@.subrange(0, i as int),
        decreases p@.len() - i,
    {
        out.push(p[i]);
        i = i + 1;
        proof {
            assert(out@ =~= p@.subrange(0, i as int));
        }
    }
    proof {
        assert(out@ =~= p@);
    }
    out
}

/// A copy of a span list.
pub fn copy_spans(p: &Vec<SrcSpan>) -> (r: Vec<SrcSpan>)
    ensures
        r@ == p@,
{
    let mut out: Vec<SrcSpan> = Vec::new();
    let mut i: usize = 0;
    while i < p.len()
        invariant
            i <= p@.len(),
            out@ == p@.subrange(0, i as int),
        decreases p@.len() - i,
    {
        out.push(p[i]);
        i = i + 1;
        proof {
            assert(out@ =~= p@.subrange(0, i as int));
        }
    }
    proof {
        assert(out@ =~= p@);
    }
    out
}

/// The queue's candidate paths are sorted by length, never growing by
/// more than one across the whole queue.
pub open spec fn queue_sorted(q: Seq<(usize, Vec<(usize, SrcSpan)>)>) -> bool {
    &&& forall|j1: int, j2: int|
        0 <= j1 < j2 < q.len() ==> (#[trigger] q[j1]).1@.len() <= (#[trigger] q[j2]).1@.len()
    &&& q.len() > 0 ==> q[q.len() - 1].1@.len() <= q[0].1@.len() + 1
}

/// Every entry point not yet visited still holds its initial zero-length
/// candidate in the queue.
pub open spec fn entries_fresh(
    ev: Seq<usize>,
    vs: Seq<bool>,
    q: Seq<(usize, Vec<(usize, SrcSpan)>)>,
) -> bool {
    forall|e: int|
        0 <= e < ev.len() && !vs[#[trigger] ev[e] as int] ==> exists|j: int|
            0 <= j < q.len() && (#[trigger] q[j]).0 == ev[e] && q[j].1@.len() == 0
}

/// Every local call edge out of an already-reported function leads to a
/// function that is visited or queued with a path at most one longer
/// than the caller's.
pub open spec fn closed_with_budget(
    gv: Seq<Seq<CallSite>>,
    outs: Seq<LocallyReachable>,
    vs: Seq<bool>,
    q: Seq<(usize, Vec<(usize, SrcSpan)>)>,
) -> bool {
    forall|oj: int, b: usize|
        #![trigger has_edge(gv, outs[oj].reach, b)]
        0 <= oj < outs.len() && b < vs.len() && has_edge(gv, outs[oj].reach, b) ==> vs[b as int]
            || exists|qj: int|
            0 <= qj < q.len() && (#[trigger] q[qj]).0 == b && q[qj].1@.len() <= outs[
                oj
            ].through@.len() + 1
}

/// Every reported witness path is shortest in edge count.
pub open spec fn outs_minimal(
    gv: Seq<Seq<CallSite>>,
    ev: Seq<usize>,
    outs: Seq<LocallyReachable>,
) -> bool {
    forall|oj: int, t: Seq<(usize, SrcSpan)>|
        0 <= oj < outs.len() && #[trigger] valid_path(gv, ev, t, (#[trigger] outs[oj]).reach)
            ==> outs[oj].through@.len() <= t.len()
}

/// Under the walk's invariants, any valid path to an unvisited function
/// passes through a queued candidate no longer than the position it is
/// met at: walk forward to the first unvisited node of the path; its
/// predecessor (or an entry point) puts it in the queue within budget.
#[verifier::rlimit(100)]
#[verifier::spinoff_prover]
proof fn lemma_queue_witness(
    gv: Seq<Seq<CallSite>>,
    ev: Seq<usize>,
    outs: Seq<LocallyReachable>,
    vs: Seq<bool>,
    q: Seq<(usize, Vec<(usize, SrcSpan)>)>,
    t: Seq<(usize, SrcSpan)>,
    u: usize,
    i: int,
)
    requires
        graph_wf(gv),
        vs.len() == gv.len(),
        entries_fresh(ev, vs, q),
        closed_with_budget(gv, outs, vs, q),
        outs_minimal(gv, ev, outs),
        forall|f: int|
            0 <= f < gv.len() && vs[f] ==> exists|oj: int|
                0 <= oj < outs.len() && (#[trigger] outs[oj]).reach == f,
        valid_path(gv, ev, t, u),
        u < gv.len(),
        !vs[u as int],
        0 <= i <= t.len(),
        forall|i2: int| 0 <= i2 < i ==> vs[path_node(t, u, i2) as int],
        forall|i2: int| 0 <= i2 <= t.len() ==> (#[trigger] path_node(t, u, i2)) < gv.len(),
    ensures
        exists|j: int, i2: int|
            #![trigger q[j], path_node(t, u, i2)]
            0 <= j < q.len() && 0 <= i2 <= t.len() && q[j].0 == path_node(t, u, i2)
                && q[j].1@.len() <= i2,
    decreases t.len() - i,
{
    let ni = path_node(t, u, i);
    if !vs[ni as int] {
        if i == 0 {
            if t.len() == 0 {
                assert(ev.contains(u));
                let e = choose|e: int| 0 <= e < ev.len() && ev[e] == u;
                assert(!vs[ev[e] as int]);
                let j = choose|j: int|
                    0 <= j < q.len() && (#[trigger] q[j]).0 == ev[e] && q[j].1@.len() == 0;
                assert(q[j].0 == path_node(t, u, 0) && q[j].1@.len() <= 0);
            } else {
                assert(ev.contains(t[0].0));
                let e = choose|e: int| 0 <= e < ev.len() && ev[e] == t[0].0;
                assert(!vs[ev[e] as int]);
                let j = choose|j: int|
                    0 <= j < q.len() && (#[trigger] q[j]).0 == ev[e] && q[j].1@.len() == 0;
                assert(q[j].0 == path_node(t, u, 0) && q[j].1@.len() <= 0);
            }
        } else {
            let prev = path_node(t, u, i - 1);
            assert(vs[prev as int]);
            let oj = choose|oj: int|
                0 <= oj < outs.len() && (#[trigger] outs[oj]).reach == prev;
            lemma_prefix_valid(gv, ev, t, u, i - 1);
            assert(valid_path(gv, ev, t.subrange(0, i - 1), prev));
            assert(outs[oj].through@.len() <= i - 1);
            assert(has_call(gv, t[i - 1].0, ni, t[i - 1].1)) by {
                assert(i - 1 < t.len());
            }
            assert(t[i - 1].0 == prev);
            assert(has_edge(gv, prev, ni));
            assert(ni < vs.len());
            let qj = choose|qj: int|
                0 <= qj < q.len() && (#[trigger] q[qj]).0 == ni && q[qj].1@.len() <= outs[
                    oj
                ].through@.len() + 1;
            assert(q[qj].0 == path_node(t, u, i) && q[qj].1@.len() <= i);
        }
    } else {
        assert(i < t.len()) by {
            assert(path_node(t, u, t.len() as int) == u);
        }
        lemma_queue_witness(gv, ev, outs, vs, q, t, u, i + 1);
    }
}

/// One record per reachable function and nothing else, so the output's
/// length is the reachable set's cardinality.
proof fn lemma_output_counts_reachable(
    gv: Seq<Seq<CallSite>>,
    ev: Seq<usize>,
    outs: Seq<LocallyReachable>,
)
    requires
        forall|j1: int, j2: int|
            0 <= j1 < j2 < outs.len() ==> (#[trigger] outs[j1]).reach != (
            #[trigger] outs[j2]).reach,
        forall|j: int|
            0 <= j < outs.len() ==> (#[trigger] outs[j]).reach < gv.len() && valid_path(
                gv,
                ev,
                outs[j].through@,
                outs[j].reach,
            ),
        forall|f: usize|
            f < gv.len() && #[trigger] spec_reachable(gv, ev, f) ==> exists|j: int|
                0 <= j < outs.len() && (#[trigger] outs[j]).reach == f,
    ensures
        outs.len() == reachable_set(gv, ev).len(),
{
    let rs = outs.map_values(|o: LocallyReachable| o.reach);
    assert(rs.no_duplicates()) by {
        assert forall|j1: int, j2: int|
            0 <= j1 < rs.len() && 0 <= j2 < rs.len() && j1 != j2 implies rs[j1] != rs[j2] by {
            assert(rs[j1] == outs[j1].reach);
            assert(rs[j2] == outs[j2].reach);
        }
    }
    assert(rs.to_set() =~= reachable_set(gv, ev)) by {
        assert forall|f: usize| #[trigger] rs.to_set().contains(f) implies reachable_set(
            gv,
            ev,
        ).contains(f) by {
            let j = choose|j: int| 0 <= j < rs.len() && rs[j] == f;
            assert(outs[j].reach == f);
            assert(valid_path(gv, ev, outs[j].through@, f));
            assert(spec_reachable(gv, ev, f));
        }
        assert forall|f: usize| #[trigger] reachable_set(gv, ev).contains(f) implies rs.to_set()
            .contains(f) by {
            let j = choose|j: int| 0 <= j < outs.len() && (#[trigger] outs[j]).reach == f;
            assert(rs[j] == f);
            assert(rs.contains(f));
        }
    }
    rs.unique_seq_to_set();
}

/// The walk's visited set is closed: every local call edge out of a
/// visited function leads to a function that is visited or queued.
pub open spec fn closed_under_edges(
    gv: Seq<Seq<CallSite>>,
    vs: Seq<bool>,
    q: Seq<(usize, Vec<(usize, SrcSpan)>)>,
) -> bool {
    forall|a: usize, b: usize|
        a < vs.len() && vs[a as int] && #[trigger] has_edge(gv, a, b) && b < vs.len() ==> vs[
            b as int
        ] || in_queue(q, b)
}

/// With an empty queue, a closed visited set that contains every entry
/// point contains every reachable function.
#[verifier::rlimit(50)]
#[verifier::spinoff_prover]
proof fn lemma_closed_covers(
    gv: Seq<Seq<CallSite>>,
    entries: Seq<usize>,
    vs: Seq<bool>,
    t: Seq<(usize, SrcSpan)>,
    f: usize,
)
    requires
        graph_wf(gv),
        vs.len() == gv.len(),
        forall|e: int| 0 <= e < entries.len() ==> (#[trigger] entries[e]) < gv.len(),
        closed_under_edges(gv, vs, Seq::empty()),
        forall|e: int| 0 <= e < entries.len() ==> vs[#[trigger] entries[e] as int],
        valid_path(gv, entries, t, f),
        f < gv.len(),
    ensures
        vs[f as int],
    decreases t.len(),
{
    if t.len() == 0 {
        let e = choose|e: int| 0 <= e < entries.len() && entries[e] == f;
        assert(vs[entries[e] as int]);
    } else {
        let t2 = t.drop_last();
        let mid = t.last().0;
        let sp = t.last().1;
        assert(has_call(gv, mid, f, sp));
        assert(mid < gv.len());
        if t2.len() == 0 {
            assert(t[0].0 == mid);
            assert(valid_path(gv, entries, t2, mid));
        } else {
            assert(entries.contains(t2[0].0)) by {
                assert(t2[0] == t[0]);
            }
            assert forall|i: int| 0 <= i < t2.len() implies has_call(
                gv,
                (#[trigger] t2[i]).0,
                if i + 1 < t2.len() {
                    t2[i + 1].0
                } else {
                    mid
                },
                t2[i].1,
            ) by {
                assert(t2[i] == t[i]);
                if i + 1 < t2.len() {
                    assert(t2[i + 1] == t[i + 1]);
                } else {
                    assert(t[i + 1].0 == mid);
                }
            }
            assert(valid_path(gv, entries, t2, mid));
        }
        lemma_closed_covers(gv, entries, vs, t2, mid);
        assert(has_edge(gv, mid, f));
        assert(!in_queue(Seq::empty(), f));
    }
}

/// Walk the call graph breadth-first from the entry points.
///
/// Terminates on every graph, cyclic ones included. Each reachable
/// function appears exactly once in the result, with a valid witness path
/// from an entry point and with its outgoing calls grouped by callee in
/// first-occurrence order; no unreachable function appears.
pub fn locally_reachable_from(g: &CallGraph, entry_points: &Vec<usize>) -> (r: Vec<
    LocallyReachable,
>)
    requires
        graph_wf(graph_view(g.calls@)),
        forall|e: int|
            0 <= e < entry_points@.len() ==> (#[trigger] entry_points@[e]) < g.calls@.len(),
    ensures
        ({
            let gv = graph_view(g.calls@);
            let ev = entry_points@;
            &&& forall|j1: int, j2: int|
                0 <= j1 < j2 < r@.len() ==> (#[trigger] r@[j1]).reach != (#[trigger] r@[j2]).reach
            &&& forall|j: int|
                0 <= j < r@.len() ==> (#[trigger] r@[j]).reach < gv.len() && valid_path(
                    gv,
                    ev,
                    r@[j].through@,
                    r@[j].reach,
                ) && groups_view(r@[j].calls_to@) == group_spec(gv[r@[j].reach as int], 0)
            &&& forall|f: usize|
                f < gv.len() && #[trigger] spec_reachable(gv, ev, f) ==> exists|j: int|
                    0 <= j < r@.len() && (#[trigger] r@[j]).reach == f
            &&& outs_minimal(gv, ev, r@)
            &&& r@.len() == reachable_set(gv, ev).len()
        }),
{
    let ghost gv = graph_view(g.calls@);
    let ghost ev = entry_points@;
    let n = g.calls.len();
    proof {
        assert(gv.len() == n);
        assert forall|f: int| 0 <= f < n implies #[trigger] gv[f] == g.calls@[f]@ by {
        }
    }
    let mut visited: Vec<bool> = Vec::new();
    let mut z: usize = 0;
    while z < n
        invariant
            z <= n,
            visited@.len() == z,
            forall|j: int| 0 <= j < z ==> !(#[trigger] visited@[j]),
        decreases n - z,
    {
        visited.push(false);
        z = z + 1;
    }
    let mut queue: VecDeque<(usize, Vec<(usize, SrcSpan)>)> = VecDeque::new();
    let mut e: usize = 0;
    while e < entry_points.len()
        invariant
            e <= entry_points@.len(),
            ev == entry_points@,
            queue@.len() == e,
            forall|j: int|
                0 <= j < e ==> (#[trigger] queue@[j]).0 == ev[j] && queue@[j].1@ =~= Seq::<
                    (usize, SrcSpan),
                >::empty(),
        decreases entry_points@.len() - e,
    {
        queue.push_back((entry_points[e], Vec::new()));
        e = e + 1;
    }
    proof {
        assert forall|j: int| 0 <= j < queue@.len() implies (#[trigger] queue@[j]).0 < gv.len()
            && valid_path(gv, ev, queue@[j].1@, queue@[j].0) by {
            assert(queue@[j].0 == ev[j]);
            assert(ev.contains(ev[j]));
        }
        assert forall|ee: int| 0 <= ee < ev.len() implies visited@[#[trigger] ev[ee] as int]
            || in_queue(queue@, ev[ee]) by {
            assert((queue@[ee]).0 == ev[ee]);
        }
        assert(queue_sorted(queue@));
        assert forall|ee: int| 0 <= ee < ev.len() && !visited@[#[trigger] ev[ee] as int]
            implies exists|j: int|
            0 <= j < queue@.len() && (#[trigger] queue@[j]).0 == ev[ee] && queue@[j].1@.len()
                == 0 by {
            assert(queue@[ee].0 == ev[ee] && queue@[ee].1@.len() == 0);
        }
    }
    let mut out: Vec<LocallyReachable> = Vec::new();
    loop
        invariant
            n == gv.len(),
            gv == graph_view(g.calls@),
            graph_wf(gv),
            ev == entry_points@,
            forall|j: int| 0 <= j < ev.len() ==> (#[trigger] ev[j]) < n,
            visited@.len() == n,
            forall|j: int| 0 <= j < n ==> #[trigger] gv[j] == g.calls@[j]@,
            // every queued candidate is a plausible visit
            forall|j: int|
                0 <= j < queue@.len() ==> (#[trigger] queue@[j]).0 < n && valid_path(
                    gv,
                    ev,
                    queue@[j].1@,
                    queue@[j].0,
                ),
            // every entry point is visited or queued
            forall|j: int|
                0 <= j < ev.len() ==> visited@[#[trigger] ev[j] as int] || in_queue(
                    queue@,
                    ev[j],
                ),
            closed_under_edges(gv, visited@, queue@),
            // the output holds exactly the visited functions, each once
            forall|j1: int, j2: int|
                0 <= j1 < j2 < out@.len() ==> (#[trigger] out@[j1]).reach != (
                #[trigger] out@[j2]).reach,
            forall|j: int|
                0 <= j < out@.len() ==> (#[trigger] out@[j]).reach < n && visited@[
                    out@[j].reach as int
                ] && valid_path(gv, ev, out@[j].through@, out@[j].reach) && groups_view(
                    out@[j].calls_to@,
                ) == group_spec(gv[out@[j].reach as int], 0),
            forall|f: int|
                0 <= f < n && visited@[f] ==> exists|j: int|
                    0 <= j < out@.len() && (#[trigger] out@[j]).reach == f,
            queue_sorted(queue@),
            entries_fresh(ev, visited@, queue@),
            closed_with_budget(gv, out@, visited@, queue@),
            outs_minimal(gv, ev, out@),
        decreases unvisited_count(visited@), queue@.len(),
    {
        let ghost old_q = queue@;
        let ghost old_vis = visited@;
        match queue.pop_front() {
            None => {
                proof {
                    assert(queue@.len() == 0);
                    assert forall|f: usize|
                        f < gv.len() && #[trigger] spec_reachable(gv, ev, f) implies exists|j: int|
                        0 <= j < out@.len() && (#[trigger] out@[j]).reach == f by {
                        let t = choose|t: Seq<(usize, SrcSpan)>| valid_path(gv, ev, t, f);
                        assert(queue@ =~= Seq::<(usize, Vec<(usize, SrcSpan)>)>::empty());
                        lemma_closed_covers(gv, ev, visited@, t, f);
                    }
                    lemma_output_counts_reachable(gv, ev, out@);
                }
                return out;
            },
            Some(d) => {
                let (f, path) = d;
                proof {
                    assert(old_q[0].0 == f);
                    assert(queue@ =~= old_q.drop_first());
                }
                if visited[f] {
                    proof {
                        // dropping an already-visited candidate keeps the
                        // closure and entry invariants
                        assert forall|a: usize, b: usize|
                            a < visited@.len() && visited@[a as int] && #[trigger] has_edge(
                                gv,
                                a,
                                b,
                            ) && b < visited@.len() implies visited@[b as int] || in_queue(
                            queue@,
                            b,
                        ) by {
                            if !visited@[b as int] {
                                let j = choose|j: int|
                                    0 <= j < old_q.len() && (#[trigger] old_q[j]).0 == b;
                                assert(b != f);
                                assert(j > 0);
                                assert(queue@[j - 1].0 == b);
                            }
                        }
                        assert forall|j: int| 0 <= j < ev.len() implies visited@[
                            #[trigger] ev[j] as int
                        ] || in_queue(queue@, ev[j]) by {
                            if !visited@[ev[j] as int] {
                                let q0 = choose|q0: int|
                                    0 <= q0 < old_q.len() && (#[trigger] old_q[q0]).0 == ev[j];
                                assert(ev[j] != f);
                                assert(q0 > 0);
                                assert(queue@[q0 - 1].0 == ev[j]);
                            }
                        }
                        assert forall|j1: int, j2: int| 0 <= j1 < j2 < queue@.len() implies (
                        #[trigger] queue@[j1]).1@.len() <= (#[trigger] queue@[j2]).1@.len() by {
                            assert(queue@[j1] == old_q[j1 + 1]);
                            assert(queue@[j2] == old_q[j2 + 1]);
                        }
                        if queue@.len() > 0 {
                            assert(queue@[queue@.len() - 1] == old_q[old_q.len() - 1]);
                            assert(queue@[0] == old_q[1]);
                            assert(old_q[0].1@.len() <= old_q[1].1@.len());
                        }
                        assert forall|e: int|
                            0 <= e < ev.len() && !visited@[#[trigger] ev[e] as int]
                            implies exists|j: int|
                            0 <= j < queue@.len() && (#[trigger] queue@[j]).0 == ev[e]
                                && queue@[j].1@.len() == 0 by {
                            let j0 = choose|j0: int|
                                0 <= j0 < old_q.len() && (#[trigger] old_q[j0]).0 == ev[e]
                                    && old_q[j0].1@.len() == 0;
                            assert(ev[e] != f);
                            assert(j0 > 0);
                            assert(queue@[j0 - 1] == old_q[j0]);
                        }
                        assert forall|oj: int, b: usize|
                            #![trigger has_edge(gv, out@[oj].reach, b)]
                            0 <= oj < out@.len() && b < visited@.len() && has_edge(
                                gv,
                                out@[oj].reach,
                                b,
                            ) implies visited@[b as int] || exists|qj: int|
                            0 <= qj < queue@.len() && (#[trigger] queue@[qj]).0 == b
                                && queue@[qj].1@.len() <= out@[oj].through@.len() + 1 by {
                            if !visited@[b as int] {
                                let qj = choose|qj: int|
                                    0 <= qj < old_q.len() && (#[trigger] old_q[qj]).0 == b
                                        && old_q[qj].1@.len() <= out@[oj].through@.len() + 1;
                                assert(b != f);
                                assert(qj > 0);
                                assert(queue@[qj - 1] == old_q[qj]);
                            }
                        }
                    }
                } else {
                    let ghost min_path = path@;
                    proof {
                        // the popped path is shortest: any valid path to
                        // this function passes a queued candidate at or
                        // before its own length, and the queue is sorted
                        assert forall|t: Seq<(usize, SrcSpan)>|
                            #[trigger] valid_path(gv, ev, t, f) implies min_path.len()
                            <= t.len() by {
                            assert forall|i2: int| 0 <= i2 <= t.len() implies (
                            #[trigger] path_node(t, f, i2)) < gv.len() by {
                                if i2 < t.len() {
                                    assert(has_call(
                                        gv,
                                        t[i2].0,
                                        if i2 + 1 < t.len() {
                                            t[i2 + 1].0
                                        } else {
                                            f
                                        },
                                        t[i2].1,
                                    ));
                                }
                            }
                            lemma_queue_witness(gv, ev, out@, visited@, old_q, t, f, 0);
                            let (j, i2) = choose|j: int, i2: int|
                                #![trigger old_q[j], path_node(t, f, i2)]
                                0 <= j < old_q.len() && 0 <= i2 <= t.len() && old_q[j].0
                                    == path_node(t, f, i2) && old_q[j].1@.len() <= i2;
                            if j > 0 {
                                assert(old_q[0].1@.len() <= old_q[j].1@.len());
                            }
                        }
                    }
                    visited.set(f, true);
                    proof {
                        lemma_unvisited_update(old_vis, f as int);
                    }
                    let sites = &g.calls[f];
                    let calls_to = group_calls(sites);
                    // push every local callee with the path extended by
                    // this call
                    let mut k: usize = 0;
                    while k < sites.len()
                        invariant
                            n == gv.len(),
                            gv == graph_view(g.calls@),
                            graph_wf(gv),
                            f < n,
                            visited@.len() == n,
                            visited@ == old_vis.update(f as int, true),
                            forall|j: int| 0 <= j < n ==> #[trigger] gv[j] == g.calls@[j]@,
                            sites@ == gv[f as int],
                            k <= sites@.len(),
                            valid_path(gv, ev, path@, f),
                            forall|j: int|
                                0 <= j < queue@.len() ==> (#[trigger] queue@[j]).0 < n
                                    && valid_path(gv, ev, queue@[j].1@, queue@[j].0),
                            // all earlier sites' local callees are queued
                            // with paths one step longer than this one
                            forall|q2: int|
                                0 <= q2 < k ==> match (#[trigger] sites@[q2]).callee {
                                    CalleeId::Local(b) => exists|qj: int|
                                        0 <= qj < queue@.len() && (#[trigger] queue@[qj]).0 == b
                                            && queue@[qj].1@.len() == path@.len() + 1,
                                    CalleeId::Foreign(_) => true,
                                },
                            // the queue only grew
                            queue@.len() >= old_q.len() - 1,
                            forall|j: int|
                                0 <= j < old_q.len() - 1 ==> #[trigger] queue@[j] == old_q[
                                    j + 1
                                ],
                            // candidate paths stay sorted within one step
                            forall|j1: int, j2: int|
                                0 <= j1 < j2 < queue@.len() ==> (#[trigger] queue@[j1]).1@.len()
                                    <= (#[trigger] queue@[j2]).1@.len(),
                            forall|j: int|
                                0 <= j < queue@.len() ==> path@.len() <= (
                                #[trigger] queue@[j]).1@.len() <= path@.len() + 1,
                        decreases sites@.len() - k,
                    {
                        let ghost q_before = queue@;
                        let site = sites[k];
                        match site.callee {
                            CalleeId::Local(b) => {
                                let mut np = copy_path(&path);
                                np.push((f, site.span));
                                proof {
                                    assert(gv[f as int][k as int] == (CallSite {
                                        callee: CalleeId::Local(b),
                                        span: site.span,
                                    }));
                                    assert(has_call(gv, f, b, site.span));
                                    lemma_valid_path_extend(gv, ev, path@, f, b, site.span);
                                    assert(b < n);
                                }
                                queue.push_back((b, np));
                                proof {
                                    assert forall|q2: int| 0 <= q2 < k + 1 implies match (
                                    #[trigger] sites@[q2]).callee {
                                        CalleeId::Local(bb) => exists|qj: int|
                                            0 <= qj < queue@.len() && (#[trigger] queue@[qj]).0
                                                == bb && queue@[qj].1@.len() == path@.len() + 1,
                                        CalleeId::Foreign(_) => true,
                                    } by {
                                        if q2 < k {
                                            match sites@[q2].callee {
                                                CalleeId::Local(bb) => {
                                                    let jj = choose|jj: int|
                                                        0 <= jj < q_before.len() && (
                                                        #[trigger] q_before[jj]).0 == bb
                                                            && q_before[jj].1@.len() == path@.len()
                                                            + 1;
                                                    assert(queue@[jj] == q_before[jj]);
                                                },
                                                CalleeId::Foreign(_) => {
                                                },
                                            }
                                        } else {
                                            assert(queue@[queue@.len() - 1].0 == b
                                                && queue@[queue@.len() - 1].1@.len()
                                                == path@.len() + 1);
                                        }
                                    }
                                }
                            },
                            CalleeId::Foreign(_) => {
                            },
                        }
                        k = k + 1;
                    }
                    let ghost old_out = out@;
                    out.push(LocallyReachable { reach: f, through: path, calls_to });
                    proof {
                        assert(out@ =~= old_out.push(out@[out@.len() - 1]));
                        let ghost newv = visited@;
                        // closure: edges out of f are all queued; edges out
                        // of older visited functions keep their witnesses
                        assert forall|a: usize, b: usize|
                            a < newv.len() && newv[a as int] && #[trigger] has_edge(gv, a, b)
                                && b < newv.len() implies newv[b as int] || in_queue(
                            queue@,
                            b,
                        ) by {
                            if a == f {
                                if !newv[b as int] {
                                    let sp = choose|sp: SrcSpan| has_call(gv, f, b, sp);
                                    let kk = choose|kk: int|
                                        0 <= kk < gv[f as int].len() && gv[f as int][kk] == (
                                        CallSite { callee: CalleeId::Local(b), span: sp });
                                    assert(sites@[kk].callee == CalleeId::Local(b));
                                }
                            } else {
                                if !old_vis[b as int] && !newv[b as int] {
                                    assert(has_edge(gv, a, b));
                                    assert(old_vis[a as int]);
                                    let jj = choose|jj: int|
                                        0 <= jj < old_q.len() && (#[trigger] old_q[jj]).0 == b;
                                    assert(b != f);
                                    assert(jj > 0);
                                    assert(queue@[jj - 1].0 == b);
                                }
                            }
                        }
                        assert forall|j: int| 0 <= j < ev.len() implies visited@[
                            #[trigger] ev[j] as int
                        ] || in_queue(queue@, ev[j]) by {
                            if !visited@[ev[j] as int] {
                                assert(!old_vis[ev[j] as int]);
                                let q0 = choose|q0: int|
                                    0 <= q0 < old_q.len() && (#[trigger] old_q[q0]).0 == ev[j];
                                assert(ev[j] != f);
                                assert(q0 > 0);
                                assert(queue@[q0 - 1].0 == ev[j]);
                            }
                        }
                        assert forall|ff: int| 0 <= ff < n && visited@[ff] implies exists|j: int|
                            0 <= j < out@.len() && (#[trigger] out@[j]).reach == ff by {
                            if ff == f {
                                assert(out@[out@.len() - 1].reach == f);
                            } else {
                                assert(old_vis[ff]);
                                let j = choose|j: int|
                                    0 <= j < old_out.len() && (#[trigger] old_out[j]).reach == ff;
                                assert(out@[j] == old_out[j]);
                                assert(out@[j].reach == ff);
                            }
                        }
                        // the queue stays sorted within one step
                        assert(queue_sorted(queue@)) by {
                            if queue@.len() > 0 {
                                assert(path@.len() <= queue@[0].1@.len());
                                assert(queue@[queue@.len() - 1].1@.len() <= path@.len() + 1);
                            }
                        }
                        // unvisited entry points keep their initial
                        // zero-length candidates
                        assert forall|e: int|
                            0 <= e < ev.len() && !visited@[#[trigger] ev[e] as int]
                            implies exists|j: int|
                            0 <= j < queue@.len() && (#[trigger] queue@[j]).0 == ev[e]
                                && queue@[j].1@.len() == 0 by {
                            assert(!old_vis[ev[e] as int]);
                            let j0 = choose|j0: int|
                                0 <= j0 < old_q.len() && (#[trigger] old_q[j0]).0 == ev[e]
                                    && old_q[j0].1@.len() == 0;
                            assert(ev[e] != f);
                            assert(j0 > 0);
                            assert(queue@[j0 - 1] == old_q[j0]);
                        }
                        // every reported function's edges stay within the
                        // one-step budget
                        assert forall|oj: int, b: usize|
                            #![trigger has_edge(gv, out@[oj].reach, b)]
                            0 <= oj < out@.len() && b < visited@.len() && has_edge(
                                gv,
                                out@[oj].reach,
                                b,
                            ) implies visited@[b as int] || exists|qj: int|
                            0 <= qj < queue@.len() && (#[trigger] queue@[qj]).0 == b
                                && queue@[qj].1@.len() <= out@[oj].through@.len() + 1 by {
                            if !visited@[b as int] {
                                if oj == out@.len() - 1 {
                                    assert(out@[oj].reach == f);
                                    let sp = choose|sp: SrcSpan| has_call(gv, f, b, sp);
                                    let kk = choose|kk: int|
                                        0 <= kk < gv[f as int].len() && gv[f as int][kk] == (
                                        CallSite { callee: CalleeId::Local(b), span: sp });
                                    assert(sites@[kk].callee == CalleeId::Local(b));
                                    assert(out@[oj].through@.len() == min_path.len());
                                } else {
                                    assert(out@[oj] == old_out[oj]);
                                    assert(has_edge(gv, old_out[oj].reach, b));
                                    let qj = choose|qj: int|
                                        0 <= qj < old_q.len() && (#[trigger] old_q[qj]).0 == b
                                            && old_q[qj].1@.len() <= old_out[oj].through@.len()
                                            + 1;
                                    assert(b != f);
                                    assert(qj > 0);
                                    assert(queue@[qj - 1] == old_q[qj]);
                                }
                            }
                        }
                        // every reported path, the new one included, is
                        // shortest
                        assert forall|oj: int, t: Seq<(usize, SrcSpan)>|
                            0 <= oj < out@.len() && #[trigger] valid_path(
                                gv,
                                ev,
                                t,
                                (#[trigger] out@[oj]).reach,
                            ) implies out@[oj].through@.len() <= t.len() by {
                            if oj == out@.len() - 1 {
                                assert(out@[oj].reach == f);
                                assert(out@[oj].through@ == min_path);
                            } else {
                                assert(out@[oj] == old_out[oj]);
                            }
                        }
                    }
                }
            },
        }
    }
}

} // verus!
