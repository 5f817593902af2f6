//! Identity-aware process-tree teardown: which processes of a `(pid, ppid)`
//! snapshot are genuine descendants of a root identity.
//!
//! A snapshot is racy: a candidate's pid may have been recycled, or its ppid
//! may name a recycled root pid. So a chained ppid alone does not prove
//! descent; the candidate's start token must also order correctly against the
//! root's: a genuine descendant was created at-or-after the root acquired its
//! pid. The keep rule is `token > root.token || (allow_equal && token ==
//! root.token)`. On Linux a process whose ppid still names the root genuinely
//! descends from it (orphans are reparented), so same-tick children are kept
//! ([`ALLOW_EQUAL_TOKEN`]).
//!
//! The walk misses reparented orphans (their ppid no longer chains to the
//! root) and never includes the root itself.

use vstd::prelude::*;

use crate::identity::{ProcessId, RawPid};

verus! {

broadcast use vstd::seq_lib::lemma_seq_contains_after_push;

/// The token-order rule on this host: same-tick children are kept.
pub const ALLOW_EQUAL_TOKEN: bool = true;

/// Whether a candidate created at `token` may descend from a root created at
/// `root_token`.
pub open spec fn keeps_token(token: u64, root_token: u64, allow_equal: bool) -> bool {
    token > root_token || (allow_equal && token == root_token)
}

/// Whether a resolution outcome is a kept identity.
pub open spec fn kept(o: Option<ProcessId>, root_token: u64, allow_equal: bool) -> bool {
    o matches Some(id) && keeps_token(id@.1, root_token, allow_equal)
}

/// Every outcome that `resolve` may give for `pid` is a kept identity.
pub open spec fn resolves_kept<F: Fn(RawPid) -> Option<ProcessId>>(
    resolve: F,
    pid: RawPid,
    root_token: u64,
    allow_equal: bool,
) -> bool {
    forall|o: Option<ProcessId>| #[trigger]
        call_ensures(resolve, (pid,), o) ==> kept(o, root_token, allow_equal)
}

/// Some outcome that `resolve` gave for `pid` is not a kept identity.
pub open spec fn rejects<F: Fn(RawPid) -> Option<ProcessId>>(
    resolve: F,
    pid: RawPid,
    root_token: u64,
    allow_equal: bool,
) -> bool {
    exists|o: Option<ProcessId>| #[trigger]
        call_ensures(resolve, (pid,), o) && !kept(o, root_token, allow_equal)
}

/// `pid` was accepted as `id`: it is not the root's pid, `id` is an outcome
/// of resolving it, and that identity passes the token guard.
pub open spec fn accepted_as<F: Fn(RawPid) -> Option<ProcessId>>(
    resolve: F,
    pid: RawPid,
    id: ProcessId,
    root: ProcessId,
    allow_equal: bool,
) -> bool {
    &&& pid != root@.0
    &&& call_ensures(resolve, (pid,), Some(id))
    &&& keeps_token(id@.1, root@.1, allow_equal)
}

/// `ps[k]` has an edge in `parents` whose ppid is the root or an earlier `ps`.
pub open spec fn reached_before(
    parents: Seq<(RawPid, RawPid)>,
    root_pid: RawPid,
    ps: Seq<RawPid>,
    k: int,
) -> bool {
    exists|j: int|
        0 <= j < parents.len() && #[trigger] parents[j].0 == ps[k] && (parents[j].1 == root_pid
            || exists|k2: int| 0 <= k2 < k && #[trigger] ps[k2] == parents[j].1)
}

/// `ps`, identified as `ids`, are distinct accepted pids, each reached
/// through an edge from the root or from an earlier one.
pub open spec fn sound_walk<F: Fn(RawPid) -> Option<ProcessId>>(
    root: ProcessId,
    parents: Seq<(RawPid, RawPid)>,
    allow_equal: bool,
    resolve: F,
    ps: Seq<RawPid>,
    ids: Seq<ProcessId>,
) -> bool {
    &&& ps.len() == ids.len()
    &&& forall|k1: int, k2: int| 0 <= k1 < k2 < ps.len() ==> ps[k1] != ps[k2]
    &&& forall|k: int|
        0 <= k < ps.len() ==> accepted_as(resolve, #[trigger] ps[k], ids[k], root, allow_equal)
    &&& forall|k: int| 0 <= k < ps.len() ==> reached_before(parents, root@.0, ps, k)
}

/// The descendant walk of `root` over `parents`: `ps` are the pids accepted
/// (as `ids`, in order), each soundly reached, and the set is closed: a
/// candidate on an edge from the root or from an accepted pid, other than the
/// root, whose every resolution is kept, is accepted. For a resolver that
/// answers each pid one way this is exactly the set of genuine descendants.
pub open spec fn is_descendant_walk<F: Fn(RawPid) -> Option<ProcessId>>(
    root: ProcessId,
    parents: Seq<(RawPid, RawPid)>,
    allow_equal: bool,
    resolve: F,
    ps: Seq<RawPid>,
    ids: Seq<ProcessId>,
) -> bool {
    &&& sound_walk(root, parents, allow_equal, resolve, ps, ids)
    &&& forall|j: int|
        0 <= j < parents.len() && (parents[j].1 == root@.0 || ps.contains(parents[j].1))
            && parents[j].0 != root@.0 && resolves_kept(resolve, parents[j].0, root@.1, allow_equal)
            ==> ps.contains(#[trigger] parents[j].0)
}

/// `parents` holds the edge `(pid, ppid)`.
pub open spec fn has_edge_to(parents: Seq<(RawPid, RawPid)>, pid: RawPid, ppid: RawPid) -> bool {
    exists|j: int| 0 <= j < parents.len() && #[trigger] parents[j] == (pid, ppid)
}

/// The direct children of `root` in `parents`: `ps` (identified as `ids`) are
/// distinct accepted pids with an edge to the root, and every candidate with
/// an edge to the root, other than the root, whose every resolution is kept,
/// is among them.
pub open spec fn is_children<F: Fn(RawPid) -> Option<ProcessId>>(
    root: ProcessId,
    parents: Seq<(RawPid, RawPid)>,
    allow_equal: bool,
    resolve: F,
    ps: Seq<RawPid>,
    ids: Seq<ProcessId>,
) -> bool {
    &&& ps.len() == ids.len()
    &&& forall|k1: int, k2: int| 0 <= k1 < k2 < ps.len() ==> ps[k1] != ps[k2]
    &&& forall|k: int|
        0 <= k < ps.len() ==> accepted_as(resolve, #[trigger] ps[k], ids[k], root, allow_equal)
    &&& forall|k: int| 0 <= k < ps.len() ==> has_edge_to(parents, #[trigger] ps[k], root@.0)
    &&& forall|j: int|
        0 <= j < parents.len() && parents[j].1 == root@.0 && parents[j].0 != root@.0
            && resolves_kept(resolve, parents[j].0, root@.1, allow_equal) ==> ps.contains(
            #[trigger] parents[j].0,
        )
}

/// The token guard.
pub fn keeps(token: u64, root_token: u64, allow_equal: bool) -> (r: bool)
    ensures
        r == keeps_token(token, root_token, allow_equal),
{
    token > root_token || (allow_equal && token == root_token)
}

fn contains_pid(v: &Vec<RawPid>, x: RawPid) -> (r: bool)
    ensures
        r == v@.contains(x),
{
    let mut i: usize = 0;
    while i < v.len()
        invariant
            i <= v.len(),
            forall|k: int| 0 <= k < i ==> v@[k] != x,
        decreases v.len() - i,
    {
        if v[i] == x {
            return true;
        }
        i += 1;
    }
    false
}

/// The remembered outcome for `p`: that of the first entry for `p`, or
/// `None` when no entry is for `p`.
fn memo_lookup(memo: &Vec<(RawPid, Option<ProcessId>)>, p: RawPid) -> (r: Option<
    Option<ProcessId>,
>)
    ensures
        r matches Some(o) ==> exists|m: int|
            0 <= m < memo.len() && #[trigger] memo@[m] == (p, o) && forall|k: int|
                0 <= k < m ==> (#[trigger] memo@[k]).0 != p,
        r is None <==> forall|m: int| 0 <= m < memo.len() ==> (#[trigger] memo@[m]).0 != p,
{
    let mut i: usize = 0;
    while i < memo.len()
        invariant
            i <= memo.len(),
            forall|k: int| 0 <= k < i ==> (#[trigger] memo@[k]).0 != p,
        decreases memo.len() - i,
    {
        if memo[i].0 == p {
            assert(memo@[i as int] == (p, memo@[i as int].1));
            return Some(memo[i].1);
        }
        i += 1;
    }
    None
}

/// Resolve `p` at most once per walk: the remembered outcome, or a fresh call
/// that is then remembered.
fn resolve_once<F: Fn(RawPid) -> Option<ProcessId>>(
    resolve: &F,
    memo: &mut Vec<(RawPid, Option<ProcessId>)>,
    p: RawPid,
) -> (r: Option<ProcessId>)
    requires
        forall|q: RawPid| #[trigger] call_requires(*resolve, (q,)),
        forall|m: int|
            0 <= m < old(memo).len() ==> call_ensures(*resolve, (#[trigger] old(memo)@[m].0,), old(memo)@[m].1),
    ensures
        call_ensures(*resolve, (p,), r),
        forall|m: int|
            0 <= m < final(memo).len() ==> call_ensures(*resolve, (#[trigger] final(memo)@[m].0,), final(memo)@[m].1),
{
    match memo_lookup(memo, p) {
        Some(o) => {
            let ghost m = choose|m: int| 0 <= m < memo.len() && #[trigger] memo@[m] == (p, o);
            assert(call_ensures(*resolve, (memo@[m].0,), memo@[m].1));
            o
        },
        None => {
            let o = resolve(p);
            memo.push((p, o));
            proof {
                assert forall|m: int| 0 <= m < memo.len() implies call_ensures(
                    *resolve,
                    (#[trigger] memo@[m].0,),
                    memo@[m].1,
                ) by {
                    if m < memo.len() - 1 {
                        assert(memo@[m] == old(memo)@[m]);
                    }
                }
            }
            o
        },
    }
}

/// The genuine direct children of `root` in the snapshot `parents`: each
/// edge `(pid, ppid)` with `ppid` the root's pid, `pid` resolved (once per
/// pid) and kept by the token guard, each pid once, in snapshot order.
pub fn children_of_with<F: Fn(RawPid) -> Option<ProcessId>>(
    root: ProcessId,
    parents: &[(RawPid, RawPid)],
    allow_equal: bool,
    resolve: F,
) -> (r: Vec<ProcessId>)
    requires
        forall|q: RawPid| #[trigger] call_requires(resolve, (q,)),
    ensures
        exists|ps: Seq<RawPid>| #[trigger] is_children(root, parents@, allow_equal, resolve, ps, r@),
{
    let root_pid = root.pid();
    let root_tok = root.start_token_raw();
    let mut result: Vec<ProcessId> = Vec::new();
    let mut acc: Vec<RawPid> = Vec::new();
    let mut memo: Vec<(RawPid, Option<ProcessId>)> = Vec::new();
    let mut j: usize = 0;
    while j < parents.len()
        invariant
            j <= parents.len(),
            root_pid == root@.0,
            root_tok == root@.1,
            forall|q: RawPid| #[trigger] call_requires(resolve, (q,)),
            forall|m: int|
                0 <= m < memo.len() ==> call_ensures(resolve, (#[trigger] memo@[m].0,), memo@[m].1),
            acc.len() == result.len(),
            forall|k1: int, k2: int| 0 <= k1 < k2 < acc.len() ==> acc@[k1] != acc@[k2],
            forall|k: int|
                0 <= k < acc.len() ==> accepted_as(
                    resolve,
                    #[trigger] acc@[k],
                    result@[k],
                    root,
                    allow_equal,
                ),
            forall|k: int| 0 <= k < acc.len() ==> has_edge_to(parents@, #[trigger] acc@[k], root@.0),
            forall|j2: int|
                0 <= j2 < j && parents@[j2].1 == root@.0 && parents@[j2].0 != root@.0
                    && resolves_kept(resolve, parents@[j2].0, root@.1, allow_equal)
                    ==> acc@.contains(#[trigger] parents@[j2].0),
        decreases parents.len() - j,
    {
        let (pid, ppid) = parents[j];
        if ppid == root_pid && pid != root_pid {
            let o = resolve_once(&resolve, &mut memo, pid);
            if let Some(id) = o {
                if keeps(id.start_token_raw(), root_tok, allow_equal) && !contains_pid(&acc, pid) {
                    let ghost old_acc = acc@;
                    let ghost old_result = result@;
                    result.push(id);
                    acc.push(pid);
                    proof {
                        assert(parents@[j as int] == (pid, ppid));
                        assert forall|k: int| 0 <= k < acc.len() implies has_edge_to(
                            parents@,
                            #[trigger] acc@[k],
                            root@.0,
                        ) by {
                            if k < old_acc.len() {
                                assert(acc@[k] == old_acc[k]);
                            }
                        }
                        assert forall|k: int| 0 <= k < acc.len() implies accepted_as(
                            resolve,
                            #[trigger] acc@[k],
                            result@[k],
                            root,
                            allow_equal,
                        ) by {
                            if k < old_acc.len() {
                                assert(acc@[k] == old_acc[k]);
                                assert(result@[k] == old_result[k]);
                            }
                        }
                    }
                }
            }
        }
        j += 1;
    }
    assert(is_children(root, parents@, allow_equal, resolve, acc@, result@));
    result
}

/// Edge `j` of `parents` has been dealt with: its ppid is done, and its pid
/// is the root, accepted, or rejected.
spec fn consumed_in(
    parents: Seq<(RawPid, RawPid)>,
    root_pid: RawPid,
    done: Set<RawPid>,
    acc: Seq<RawPid>,
    rej: Set<RawPid>,
    j: usize,
) -> bool {
    &&& done.contains(parents[j as int].1)
    &&& (parents[j as int].0 == root_pid || acc.contains(parents[j as int].0) || rej.contains(
        parents[j as int].0,
    ))
}

proof fn lemma_walk_push<F: Fn(RawPid) -> Option<ProcessId>>(
    root: ProcessId,
    parents: Seq<(RawPid, RawPid)>,
    allow_equal: bool,
    resolve: F,
    ps: Seq<RawPid>,
    ids: Seq<ProcessId>,
    p: RawPid,
    id: ProcessId,
    e: int,
)
    requires
        sound_walk(root, parents, allow_equal, resolve, ps, ids),
        !ps.contains(p),
        accepted_as(resolve, p, id, root, allow_equal),
        0 <= e < parents.len(),
        parents[e].0 == p,
        parents[e].1 == root@.0 || ps.contains(parents[e].1),
    ensures
        sound_walk(root, parents, allow_equal, resolve, ps.push(p), ids.push(id)),
{
    let ps2 = ps.push(p);
    let ids2 = ids.push(id);
    assert forall|k: int| 0 <= k < ps2.len() implies accepted_as(
        resolve,
        #[trigger] ps2[k],
        ids2[k],
        root,
        allow_equal,
    ) by {
        if k < ps.len() {
            assert(ps2[k] == ps[k]);
            assert(ids2[k] == ids[k]);
        }
    }
    assert forall|k: int| 0 <= k < ps2.len() implies reached_before(
        parents,
        root@.0,
        ps2,
        k,
    ) by {
        if k < ps.len() {
            assert(reached_before(parents, root@.0, ps, k));
            let j = choose|j: int|
                0 <= j < parents.len() && #[trigger] parents[j].0 == ps[k] && (parents[j].1
                    == root@.0 || exists|k2: int| 0 <= k2 < k && #[trigger] ps[k2] == parents[j].1);
            assert(ps2[k] == ps[k]);
            if parents[j].1 != root@.0 {
                let k2 = choose|k2: int| 0 <= k2 < k && #[trigger] ps[k2] == parents[j].1;
                assert(ps2[k2] == ps[k2]);
            }
            assert(parents[j].0 == ps2[k]);
        } else {
            assert(ps2[k] == p);
            assert(parents[e].0 == ps2[k]);
            if parents[e].1 != root@.0 {
                let k2 = choose|k2: int| 0 <= k2 < ps.len() && ps[k2] == parents[e].1;
                assert(ps2[k2] == ps[k2]);
            }
        }
    }
}

/// The genuine descendants of `root` in the snapshot `parents` (pairs of
/// `(pid, ppid)`): a breadth-first walk down the ppid chains from the root's
/// pid, where a candidate joins (and its own children are examined) only if
/// `resolve` gives its identity and that identity passes the token guard.
/// Each pid is resolved at most once and appears at most once; a rejected or
/// unresolvable candidate prunes the subtree under it; the root itself is
/// never included. `resolve` is injected so the filter is pure.
pub fn descendants_with<F: Fn(RawPid) -> Option<ProcessId>>(
    root: ProcessId,
    parents: &[(RawPid, RawPid)],
    allow_equal: bool,
    resolve: F,
) -> (r: Vec<ProcessId>)
    requires
        forall|q: RawPid| #[trigger] call_requires(resolve, (q,)),
    ensures
        exists|ps: Seq<RawPid>|
            #[trigger] is_descendant_walk(root, parents@, allow_equal, resolve, ps, r@),
{
    let root_pid = root.pid();
    let root_tok = root.start_token_raw();
    let mut result: Vec<ProcessId> = Vec::new();
    let mut acc: Vec<RawPid> = Vec::new();
    let mut memo: Vec<(RawPid, Option<ProcessId>)> = Vec::new();
    let mut frontier: Vec<RawPid> = Vec::new();
    frontier.push(root_pid);
    let mut pending: Vec<usize> = Vec::new();
    let mut j: usize = 0;
    while j < parents.len()
        invariant
            j <= parents.len(),
            pending.len() == j,
            forall|t: int| 0 <= t < j ==> pending@[t] == t,
        decreases parents.len() - j,
    {
        pending.push(j);
        j += 1;
    }
    let ghost mut done: Set<RawPid> = Set::empty();
    let ghost mut rej: Set<RawPid> = Set::empty();
    proof {
        assert forall|j: usize| j < parents.len() implies #[trigger] pending@.contains(j) by {
            assert(pending@[j as int] == j);
        }
        assert(frontier@[0] == root_pid);
    }
    while frontier.len() > 0
        invariant
            root_pid == root@.0,
            root_tok == root@.1,
            forall|q: RawPid| #[trigger] call_requires(resolve, (q,)),
            forall|m: int|
                0 <= m < memo.len() ==> call_ensures(resolve, (#[trigger] memo@[m].0,), memo@[m].1),
            sound_walk(root, parents@, allow_equal, resolve, acc@, result@),
            forall|p: RawPid|
                #![trigger done.contains(p)]
                #![trigger frontier@.contains(p)]
                #![trigger acc@.contains(p)]
                (done.contains(p) || frontier@.contains(p)) == (p == root_pid || acc@.contains(p)),
            forall|t: int|
                0 <= t < pending.len() ==> #[trigger] pending@[t] < parents.len() && !done.contains(
                    parents@[pending@[t] as int].1,
                ),
            forall|j: usize|
                j < parents.len() ==> #[trigger] pending@.contains(j) || consumed_in(
                    parents@,
                    root_pid,
                    done,
                    acc@,
                    rej,
                    j,
                ),
            forall|p: RawPid| #[trigger] rej.contains(p) ==> rejects(resolve, p, root_tok, allow_equal),
        decreases 2 * pending.len() + if frontier.len() > 0 {
            1int
        } else {
            0int
        },
    {
        let ghost done_new: Set<RawPid> = Set::new(|p: RawPid| done.contains(p) || frontier@.contains(p));
        let ghost acc0 = acc@;
        let mut next: Vec<RawPid> = Vec::new();
        let mut still: Vec<usize> = Vec::new();
        let mut t: usize = 0;
        while t < pending.len()
            invariant
                t <= pending.len(),
                root_pid == root@.0,
                root_tok == root@.1,
                forall|q: RawPid| #[trigger] call_requires(resolve, (q,)),
                forall|m: int|
                    0 <= m < memo.len() ==> call_ensures(resolve, (#[trigger] memo@[m].0,), memo@[m].1),
                sound_walk(root, parents@, allow_equal, resolve, acc@, result@),
                forall|p: RawPid| #[trigger] done_new.contains(p) == (done.contains(p) || frontier@.contains(p)),
                forall|p: RawPid|
                    #![trigger done.contains(p)]
                    #![trigger frontier@.contains(p)]
                    #![trigger acc0.contains(p)]
                    (done.contains(p) || frontier@.contains(p)) == (p == root_pid || acc0.contains(p)),
                forall|p: RawPid| #[trigger] acc@.contains(p) == (acc0.contains(p) || next@.contains(p)),
                forall|t2: int|
                    0 <= t2 < pending.len() ==> #[trigger] pending@[t2] < parents.len()
                        && !done.contains(parents@[pending@[t2] as int].1),
                forall|t2: int|
                    0 <= t2 < still.len() ==> #[trigger] still@[t2] < parents.len() && !done_new.contains(
                        parents@[still@[t2] as int].1,
                    ),
                forall|t2: int|
                    0 <= t2 < t ==> still@.contains(#[trigger] pending@[t2]) || consumed_in(
                        parents@,
                        root_pid,
                        done_new,
                        acc@,
                        rej,
                        pending@[t2],
                    ),
                forall|j: usize|
                    j < parents.len() ==> #[trigger] pending@.contains(j) || consumed_in(
                        parents@,
                        root_pid,
                        done_new,
                        acc@,
                        rej,
                        j,
                    ),
                forall|p: RawPid| #[trigger] rej.contains(p) ==> rejects(resolve, p, root_tok, allow_equal),
                still.len() <= t,
                next.len() > 0 ==> still.len() < t,
            decreases pending.len() - t,
        {
            let e = pending[t];
            let (pid, ppid) = parents[e];
            if !contains_pid(&frontier, ppid) {
                still.push(e);
            } else if pid == root_pid {
            } else if pid == ppid {
                assert(acc0.contains(pid));
            } else {
                let o = resolve_once(&resolve, &mut memo, pid);
                let take = match o {
                    Some(id) => keeps(id.start_token_raw(), root_tok, allow_equal),
                    None => false,
                };
                if take {
                    let id = o.unwrap();
                    if !contains_pid(&acc, pid) {
                        proof {
                            if ppid != root_pid {
                                assert(acc0.contains(ppid));
                            }
                            lemma_walk_push(
                                root,
                                parents@,
                                allow_equal,
                                resolve,
                                acc@,
                                result@,
                                pid,
                                id,
                                e as int,
                            );
                        }
                        result.push(id);
                        acc.push(pid);
                        next.push(pid);
                    }
                } else {
                    proof {
                        rej = rej.insert(pid);
                    }
                }
            }
            t += 1;
        }
        proof {
            assert forall|j: usize| j < parents.len() implies #[trigger] still@.contains(j)
                || consumed_in(parents@, root_pid, done_new, acc@, rej, j) by {
                if pending@.contains(j) {
                    let t2 = choose|t2: int| 0 <= t2 < pending.len() && pending@[t2] == j;
                    assert(still@.contains(pending@[t2]) || consumed_in(
                        parents@,
                        root_pid,
                        done_new,
                        acc@,
                        rej,
                        pending@[t2],
                    ));
                }
            }
            done = done_new;
        }
        pending = still;
        frontier = next;
    }
    proof {
        assert forall|j: int|
            0 <= j < parents.len() && (parents@[j].1 == root@.0 || acc@.contains(parents@[j].1))
                && parents@[j].0 != root@.0 && resolves_kept(
                resolve,
                parents@[j].0,
                root@.1,
                allow_equal,
            ) implies acc@.contains(#[trigger] parents@[j].0) by {
            assert(done.contains(parents@[j].1));
            if pending@.contains(j as usize) {
                let t = choose|t: int| 0 <= t < pending.len() && pending@[t] == j as usize;
                assert(!done.contains(parents@[pending@[t] as int].1));
            }
            assert(consumed_in(parents@, root_pid, done, acc@, rej, j as usize));
            if rej.contains(parents@[j].0) {
                assert(rejects(resolve, parents@[j].0, root_tok, allow_equal));
                let o = choose|o: Option<ProcessId>|
                    #[trigger] call_ensures(resolve, (parents@[j].0,), o) && !kept(
                        o,
                        root_tok,
                        allow_equal,
                    );
                assert(kept(o, root_tok, allow_equal));
            }
        }
        assert(is_descendant_walk(root, parents@, allow_equal, resolve, acc@, result@));
    }
    result
}

/// The genuine descendants of `root` under this host's token rule
/// ([`ALLOW_EQUAL_TOKEN`]).
pub fn descendants<F: Fn(RawPid) -> Option<ProcessId>>(
    root: ProcessId,
    parents: &[(RawPid, RawPid)],
    resolve: F,
) -> (r: Vec<ProcessId>)
    requires
        forall|q: RawPid| #[trigger] call_requires(resolve, (q,)),
    ensures
        exists|ps: Seq<RawPid>|
            #[trigger] is_descendant_walk(root, parents@, ALLOW_EQUAL_TOKEN, resolve, ps, r@),
{
    descendants_with(root, parents, ALLOW_EQUAL_TOKEN, resolve)
}

/// The identities a tree sweep signals, in order: the root first, then each
/// genuine descendant of the snapshot `parents`.
pub fn sweep_order<F: Fn(RawPid) -> Option<ProcessId>>(
    root: ProcessId,
    parents: &[(RawPid, RawPid)],
    resolve: F,
) -> (r: Vec<ProcessId>)
    requires
        forall|q: RawPid| #[trigger] call_requires(resolve, (q,)),
    ensures
        r@.len() >= 1,
        r@[0] == root,
        exists|ps: Seq<RawPid>|
            #[trigger] is_descendant_walk(root, parents@, ALLOW_EQUAL_TOKEN, resolve, ps, r@.skip(1)),
{
    let ds = descendants(root, parents, resolve);
    let mut out: Vec<ProcessId> = Vec::new();
    out.push(root);
    let mut i: usize = 0;
    while i < ds.len()
        invariant
            i <= ds.len(),
            out@ == seq![root] + ds@.take(i as int),
        decreases ds.len() - i,
    {
        out.push(ds[i]);
        assert(ds@.take(i + 1) =~= ds@.take(i as int).push(ds@[i as int]));
        i += 1;
    }
    assert(ds@.take(ds.len() as int) =~= ds@);
    assert(out@.skip(1) =~= ds@);
    out
}

/// Whether to signal `id` now: only when its pid still resolves to exactly
/// that identity (`current`), never to a recycled pid.
pub fn still_same(id: ProcessId, current: Option<ProcessId>) -> (r: bool)
    ensures
        r == (current == Some(id)),
{
    match current {
        Some(c) => c == id,
        None => false,
    }
}

} // verus!
