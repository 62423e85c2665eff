//! The path-resolution engine.
//!
//! A path is resolved against the tree as a component walk. The no-follow
//! walk ([`lookup_nf`]) descends sorted children component by component and
//! stops at the first symlink it meets, reporting the consumed prefix and the
//! link's raw target. The following walk ([`resolve_at`], [`resolve_follow`])
//! repeats the no-follow walk: a symlink target is folded against the link's
//! containing directory and the walk restarts from the root with that path,
//! while a set of visited canonical paths detects repetition and fails with a
//! loop error instead of running on. The visited set is only populated once a
//! symlink is actually met, so symlink-free lookups allocate nothing.
//!
//! The specification walk is fueled: `resolve_at` returns an `Out` state when
//! its fuel ends, and [`lemma_resolve_unroll`] shows that granting one more
//! unit of fuel continues the walk from exactly that state. The executable
//! resolver's contract states that its answer is the walk's answer under some
//! fuel, and [`lemma_resolve_det`] shows such an answer is unique.

use vstd::prelude::*;
use vstd::string::StrSliceExecFns;

use crate::error::FsError;
use crate::node::entries_view;
use crate::node::entries_wf;
use crate::node::find_entry;
use crate::node::idx_of;
use crate::node::lemma_entries_view;
use crate::node::lemma_idx_of;
use crate::node::lemma_find_entry_view;
use crate::node::node_view;
use crate::node::nv_wf;
use crate::node::str_eq;
use crate::node::Node;
use crate::node::NodeV;
use crate::path::fold_segs;
use crate::path::fold_segs_vec;
use crate::path::is_abs;
use crate::path::is_abs_path;
use crate::path::join_path;
use crate::path::join_segs;
use crate::path::parse_segs;
use crate::path::segs_of;

verus! {

/// The outcome of a no-follow walk.
pub enum LookupNF {
    /// Some component was absent.
    NotFound,
    /// An intermediate component was a file.
    IntoFile,
    /// A symlink was met after consuming `depth` components; `target` is its
    /// raw, unresolved target path and `modified` its timestamp.
    Link { depth: int, target: Seq<char>, modified: u64 },
    /// Every intermediate component was a directory and the final component
    /// exists.
    Found { node: NodeV },
}

/// The no-follow walk from component `i` through entries `es`.
pub open spec fn lookup_nf(es: Seq<NodeV>, comps: Seq<Seq<char>>, i: int) -> LookupNF
    decreases comps.len() - i,
{
    if i < 0 || i >= comps.len() {
        LookupNF::NotFound
    } else {
        let k = idx_of(es, comps[i]);
        if k == -1 {
            LookupNF::NotFound
        } else {
            match es[k] {
                NodeV::Dir { entries, .. } => {
                    if i == comps.len() - 1 {
                        LookupNF::Found { node: es[k] }
                    } else {
                        lookup_nf(entries, comps, i + 1)
                    }
                },
                NodeV::File { .. } => {
                    if i == comps.len() - 1 {
                        LookupNF::Found { node: es[k] }
                    } else {
                        LookupNF::IntoFile
                    }
                },
                NodeV::Symlink { target, modified, .. } => LookupNF::Link {
                    depth: i + 1,
                    target,
                    modified,
                },
            }
        }
    }
}

/// A met symlink lies within the walked components.
pub proof fn lemma_lookup_nf_link_depth(es: Seq<NodeV>, comps: Seq<Seq<char>>, i: int)
    requires
        lookup_nf(es, comps, i) matches LookupNF::Link { .. },
    ensures
        lookup_nf(es, comps, i) matches LookupNF::Link { depth, .. } && i + 1 <= depth
            <= comps.len(),
    decreases comps.len() - i,
{
    let k = idx_of(es, comps[i]);
    match es[k] {
        NodeV::Dir { entries, .. } => {
            if i != comps.len() - 1 {
                lemma_lookup_nf_link_depth(entries, comps, i + 1);
            }
        },
        _ => {},
    }
}

/// A found node is never a symlink: the walk stops at symlinks instead.
pub proof fn lemma_lookup_found_not_symlink(es: Seq<NodeV>, comps: Seq<Seq<char>>, i: int)
    requires
        lookup_nf(es, comps, i) matches LookupNF::Found { .. },
    ensures
        lookup_nf(es, comps, i) matches LookupNF::Found { node } && !(node
            matches NodeV::Symlink { .. }),
    decreases comps.len() - i,
{
    let k = idx_of(es, comps[i]);
    match es[k] {
        NodeV::Dir { entries, .. } => {
            if i != comps.len() - 1 {
                lemma_lookup_found_not_symlink(entries, comps, i + 1);
            }
        },
        _ => {},
    }
}

/// A found node is as well-formed as the tree it was found in.
pub proof fn lemma_lookup_nf_wf(es: Seq<NodeV>, comps: Seq<Seq<char>>, i: int, nfiles: nat)
    requires
        entries_wf(es, nfiles),
        lookup_nf(es, comps, i) matches LookupNF::Found { .. },
    ensures
        lookup_nf(es, comps, i) matches LookupNF::Found { node } && nv_wf(node, nfiles),
    decreases comps.len() - i,
{
    let k = idx_of(es, comps[i]);
    lemma_idx_of(es, comps[i]);
    match es[k] {
        NodeV::Dir { entries, .. } => {
            if i != comps.len() - 1 {
                assert(nv_wf(es[k], nfiles));
                lemma_lookup_nf_wf(entries, comps, i + 1, nfiles);
            }
        },
        _ => {},
    }
}

/// A resolved node is as well-formed as the tree it was resolved in.
pub proof fn lemma_resolve_found_wf(
    es: Seq<NodeV>,
    comps: Seq<Seq<char>>,
    seen: Seq<Seq<char>>,
    fuel: nat,
    nfiles: nat,
)
    requires
        entries_wf(es, nfiles),
        resolve_at(es, comps, seen, fuel) matches ResolveSpec::Found { .. },
    ensures
        resolve_at(es, comps, seen, fuel) matches ResolveSpec::Found { node, .. } && nv_wf(
            node,
            nfiles,
        ),
    decreases fuel,
{
    if fuel == 0 || comps.len() == 0 {
    } else {
        match lookup_nf(es, comps, 0) {
            LookupNF::Found { node } => {
                lemma_lookup_nf_wf(es, comps, 0, nfiles);
            },
            LookupNF::Link { depth, target, .. } => {
                let cur = comps.take(depth);
                let seen1 = if seen.len() == 0 {
                    seen.push(path_str_of_comps(cur))
                } else {
                    seen
                };
                let tgt = link_next(cur, target);
                let tgt_str = path_str_of_comps(tgt);
                if !seen1.contains(tgt_str) {
                    lemma_resolve_found_wf(es, tgt, seen1.push(tgt_str), (fuel - 1) as nat, nfiles);
                }
            },
            _ => {},
        }
    }
}

/// A settled `Found` answer is certified by a single no-follow walk of its
/// canonical path.
pub proof fn lemma_resolve_found_lookup(
    es: Seq<NodeV>,
    comps: Seq<Seq<char>>,
    seen: Seq<Seq<char>>,
    fuel: nat,
)
    requires
        resolve_at(es, comps, seen, fuel) matches ResolveSpec::Found { .. },
    ensures
        resolve_at(es, comps, seen, fuel) matches ResolveSpec::Found { comps: c, node } && lookup_nf(
            es,
            c,
            0,
        ) == (LookupNF::Found { node }),
    decreases fuel,
{
    if fuel == 0 || comps.len() == 0 {
    } else {
        match lookup_nf(es, comps, 0) {
            LookupNF::Link { depth, target, .. } => {
                let cur = comps.take(depth);
                let seen1 = if seen.len() == 0 {
                    seen.push(path_str_of_comps(cur))
                } else {
                    seen
                };
                let tgt = link_next(cur, target);
                let tgt_str = path_str_of_comps(tgt);
                if !seen1.contains(tgt_str) {
                    lemma_resolve_found_lookup(es, tgt, seen1.push(tgt_str), (fuel - 1) as nat);
                }
            },
            _ => {},
        }
    }
}

/// The string form of a component list: a leading empty component marks an
/// absolute path.
pub open spec fn path_str_of_comps(comps: Seq<Seq<char>>) -> Seq<char> {
    if comps.len() > 0 && comps[0].len() == 0 {
        join_path(true, comps.skip(1))
    } else {
        join_path(false, comps)
    }
}

/// Folds a component list whose first component may be the absolute marker:
/// the marker is kept, everything after it is folded.
pub open spec fn fold_marked(gs: Seq<Seq<char>>) -> Seq<Seq<char>> {
    if gs.len() > 0 && gs[0].len() == 0 {
        seq![Seq::<char>::empty()] + fold_segs(gs.skip(1))
    } else {
        fold_segs(gs)
    }
}

/// The components a symlink resolves to: an absolute target stands alone, a
/// relative one is folded against the link's containing directory, which is
/// the consumed prefix `cur` without the link's own name.
pub open spec fn link_next(cur: Seq<Seq<char>>, target: Seq<char>) -> Seq<Seq<char>> {
    if is_abs(target) {
        seq![Seq::<char>::empty()] + fold_segs(segs_of(target))
    } else {
        fold_marked(cur.drop_last() + segs_of(target))
    }
}

/// The outcome of a following walk.
pub enum ResolveSpec {
    /// The fuel ran out with the walk standing at this path with this visited
    /// set.
    Out { comps: Seq<Seq<char>>, seen: Seq<Seq<char>> },
    /// The path to walk was empty.
    Empty,
    /// Some prefix was absent; `comps` is the path whose walk failed, with
    /// every symlink hop taken so far already applied.
    NotFound { comps: Seq<Seq<char>> },
    /// An intermediate component was a file.
    IntoFile,
    /// Symlink resolution revisited a path.
    Loop,
    /// The walk ended at `node`, whose canonical path is `comps`.
    Found { comps: Seq<Seq<char>>, node: NodeV },
}

/// The following walk: repeat the no-follow walk, restarting from the root at
/// each symlink with the folded target, until a result or a revisit.
pub open spec fn resolve_at(
    es: Seq<NodeV>,
    comps: Seq<Seq<char>>,
    seen: Seq<Seq<char>>,
    fuel: nat,
) -> ResolveSpec
    decreases fuel,
{
    if fuel == 0 {
        ResolveSpec::Out { comps, seen }
    } else if comps.len() == 0 {
        ResolveSpec::Empty
    } else {
        match lookup_nf(es, comps, 0) {
            LookupNF::NotFound => ResolveSpec::NotFound { comps },
            LookupNF::IntoFile => ResolveSpec::IntoFile,
            LookupNF::Found { node } => ResolveSpec::Found { comps, node },
            LookupNF::Link { depth, target, .. } => {
                let cur = comps.take(depth);
                let seen1 = if seen.len() == 0 {
                    seen.push(path_str_of_comps(cur))
                } else {
                    seen
                };
                let tgt = link_next(cur, target);
                let tgt_str = path_str_of_comps(tgt);
                if seen1.contains(tgt_str) {
                    ResolveSpec::Loop
                } else {
                    resolve_at(es, tgt, seen1.push(tgt_str), (fuel - 1) as nat)
                }
            },
        }
    }
}

/// One more unit of fuel continues an `Out` state by one step and leaves any
/// settled answer as it is.
pub proof fn lemma_resolve_unroll(
    es: Seq<NodeV>,
    comps: Seq<Seq<char>>,
    seen: Seq<Seq<char>>,
    fuel: nat,
)
    ensures
        match resolve_at(es, comps, seen, fuel) {
            ResolveSpec::Out { comps: c, seen: s } => resolve_at(es, comps, seen, fuel + 1)
                == resolve_at(es, c, s, 1),
            r => resolve_at(es, comps, seen, fuel + 1) == r,
        },
    decreases fuel,
{
    if fuel == 0 {
    } else if comps.len() == 0 {
    } else {
        match lookup_nf(es, comps, 0) {
            LookupNF::Link { depth, target, .. } => {
                let cur = comps.take(depth);
                let seen1 = if seen.len() == 0 {
                    seen.push(path_str_of_comps(cur))
                } else {
                    seen
                };
                let tgt = link_next(cur, target);
                let tgt_str = path_str_of_comps(tgt);
                if !seen1.contains(tgt_str) {
                    lemma_resolve_unroll(es, tgt, seen1.push(tgt_str), (fuel - 1) as nat);
                }
            },
            _ => {},
        }
    }
}

/// A settled answer never changes under more fuel.
pub proof fn lemma_resolve_settled(
    es: Seq<NodeV>,
    comps: Seq<Seq<char>>,
    seen: Seq<Seq<char>>,
    k1: nat,
    k2: nat,
)
    requires
        k1 <= k2,
        !(resolve_at(es, comps, seen, k1) matches ResolveSpec::Out { .. }),
    ensures
        resolve_at(es, comps, seen, k2) == resolve_at(es, comps, seen, k1),
    decreases k2 - k1,
{
    if k1 < k2 {
        lemma_resolve_unroll(es, comps, seen, k1);
        lemma_resolve_settled(es, comps, seen, k1 + 1, k2);
    }
}

/// The walk's settled answer from a starting path, reached within the hop
/// budget the executable resolver walks with: unique by
/// [`lemma_resolve_det`].
pub open spec fn resolves_to(es: Seq<NodeV>, comps: Seq<Seq<char>>, r: ResolveSpec) -> bool {
    &&& !(r matches ResolveSpec::Out { .. })
    &&& exists|k: nat| k <= usize::MAX && resolve_at(es, comps, Seq::empty(), k) == r
}

/// A settled answer refutes the hop budget running out: the walk has
/// already ended by then.
pub proof fn lemma_settled_not_out(es: Seq<NodeV>, comps: Seq<Seq<char>>, r: ResolveSpec)
    requires
        resolves_to(es, comps, r),
    ensures
        !(resolve_at(es, comps, Seq::empty(), usize::MAX as nat) matches ResolveSpec::Out { .. }),
{
    let k = choose|k: nat| k <= usize::MAX && resolve_at(es, comps, Seq::empty(), k) == r;
    lemma_resolve_settled(es, comps, Seq::empty(), k, usize::MAX as nat);
}

/// Two settled answers from the same start agree.
pub proof fn lemma_resolve_det(
    es: Seq<NodeV>,
    comps: Seq<Seq<char>>,
    r1: ResolveSpec,
    r2: ResolveSpec,
)
    requires
        resolves_to(es, comps, r1),
        resolves_to(es, comps, r2),
    ensures
        r1 == r2,
{
    let k1 = choose|k: nat| k <= usize::MAX && resolve_at(es, comps, Seq::empty(), k) == r1;
    let k2 = choose|k: nat| k <= usize::MAX && resolve_at(es, comps, Seq::empty(), k) == r2;
    if k1 <= k2 {
        lemma_resolve_settled(es, comps, Seq::empty(), k1, k2);
    } else {
        lemma_resolve_settled(es, comps, Seq::empty(), k2, k1);
    }
}

/// The owned summary of a found node that lookups hand back.
pub enum NodeInfo {
    File { file_id: usize },
    Dir { modified: u64 },
    Symlink { modified: u64 },
}

/// Whether a summary describes a node.
pub open spec fn info_matches(info: NodeInfo, n: NodeV) -> bool {
    match info {
        NodeInfo::File { file_id } => n matches NodeV::File { file_id: f2, .. } && file_id as int
            == f2,
        NodeInfo::Dir { modified } => n matches NodeV::Dir { modified: m2, .. } && modified == m2,
        NodeInfo::Symlink { modified } => n matches NodeV::Symlink { modified: m2, .. } && modified
            == m2,
    }
}

/// The owned outcome of an executable no-follow walk.
pub enum LookupStep {
    NotFound,
    IntoFile,
    Link { depth: usize, target: String, modified: u64 },
    Found { info: NodeInfo },
}

/// Whether an executable outcome reports a specification outcome.
pub open spec fn step_matches(r: LookupStep, s: LookupNF) -> bool {
    match r {
        LookupStep::NotFound => s matches LookupNF::NotFound,
        LookupStep::IntoFile => s matches LookupNF::IntoFile,
        LookupStep::Link { depth, target, modified } => s matches LookupNF::Link {
            depth: d2,
            target: t2,
            modified: m2,
        } && depth as int == d2 && target@ == t2 && modified == m2,
        LookupStep::Found { info } => s matches LookupNF::Found { node } && info_matches(
            info,
            node,
        ),
    }
}

/// Runs the no-follow walk from component `i`.
pub fn lookup_nf_exec(
    es: &Vec<Node>,
    comps: &Vec<String>,
    i: usize,
    nfiles: Ghost<nat>,
) -> (r: LookupStep)
    requires
        entries_wf(entries_view(es@), nfiles@),
    ensures
        step_matches(r, lookup_nf(entries_view(es@), comps.deep_view(), i as int)),
    decreases comps.len() - i,
{
    let ghost ev = entries_view(es@);
    let ghost cv = comps.deep_view();
    proof {
        lemma_entries_view(es@);
    }
    if i >= comps.len() {
        return LookupStep::NotFound;
    }
    let name = &comps[i];
    proof {
        assert(cv[i as int] == name@);
    }
    let found = find_entry(es, name.as_str());
    proof {
        lemma_find_entry_view(es@, name@, found);
    }
    match found {
        None => LookupStep::NotFound,
        Some(k) => {
            proof {
                assert(entries_view(es@)[k as int] == node_view(es@[k as int]));
            }
            match &es[k] {
                Node::Dir { entries, modified, .. } => {
                    if i + 1 == comps.len() {
                        LookupStep::Found { info: NodeInfo::Dir { modified: *modified } }
                    } else {
                        proof {
                            assert(nv_wf(ev[k as int], nfiles@));
                            assert(node_view(es@[k as int]) matches NodeV::Dir { .. });
                        }
                        lookup_nf_exec(entries, comps, i + 1, nfiles)
                    }
                },
                Node::File { file_id, .. } => {
                    if i + 1 == comps.len() {
                        LookupStep::Found { info: NodeInfo::File { file_id: *file_id } }
                    } else {
                        LookupStep::IntoFile
                    }
                },
                Node::Symlink { target, modified, .. } => {
                    LookupStep::Link { depth: i + 1, target: target.clone(), modified: *modified }
                },
            }
        },
    }
}

/// Whether a string is among the visited paths.
fn contains_str(seen: &Vec<String>, x: &str) -> (r: bool)
    ensures
        r == seen.deep_view().contains(x@),
{
    let mut i: usize = 0;
    while i < seen.len()
        invariant
            i <= seen@.len(),
            forall|k: int| 0 <= k < i ==> seen.deep_view()[k] != x@,
        decreases seen@.len() - i,
    {
        if str_eq(seen[i].as_str(), x) {
            proof {
                assert(seen.deep_view()[i as int] == x@);
            }
            return true;
        }
        i = i + 1;
    }
    proof {
        if seen.deep_view().contains(x@) {
            let k = choose|k: int| 0 <= k < seen.deep_view().len() && seen.deep_view()[k] == x@;
            assert(seen.deep_view()[k] != x@);
        }
    }
    false
}

/// The string form of a component list.
pub fn comps_to_string(comps: &Vec<String>) -> (r: String)
    ensures
        r@ == path_str_of_comps(comps.deep_view()),
{
    let ghost cv = comps.deep_view();
    if comps.len() > 0 && comps[0].as_str().unicode_len() == 0 {
        let mut tail: Vec<String> = Vec::new();
        let mut i: usize = 1;
        while i < comps.len()
            invariant
                1 <= i <= comps@.len(),
                tail@.len() == i - 1,
                forall|k: int| 0 <= k < i - 1 ==> tail@[k]@ == comps@[k + 1]@,
            decreases comps@.len() - i,
        {
            tail.push(comps[i].clone());
            i = i + 1;
        }
        proof {
            assert forall|k: int| 0 <= k < tail@.len() implies tail.deep_view()[k] == cv.skip(
                1,
            )[k] by {
                assert(tail.deep_view()[k] == tail@[k]@);
                assert(cv.skip(1)[k] == cv[k + 1]);
            }
            assert(tail.deep_view() =~= cv.skip(1));
        }
        join_segs(true, &tail)
    } else {
        join_segs(false, comps)
    }
}

/// The mirror of a component vector, element by element.
pub proof fn lemma_comps_view(v: &Vec<String>)
    ensures
        v.deep_view().len() == v@.len(),
        forall|k: int| 0 <= k < v@.len() ==> v.deep_view()[k] == v@[k]@,
{
}

/// Folds a component list, keeping a leading absolute marker.
pub fn fold_marked_vec(gs: Vec<String>) -> (r: Vec<String>)
    ensures
        r.deep_view() == fold_marked(gs.deep_view()),
{
    let ghost gv = gs.deep_view();
    let ghost gs0 = gs@;
    proof {
        lemma_comps_view(&gs);
    }
    if gs.len() > 0 && gs[0].as_str().unicode_len() == 0 {
        let mut tail = gs;
        let head = tail.remove(0);
        proof {
            lemma_comps_view(&tail);
            assert forall|k: int| 0 <= k < tail@.len() implies tail.deep_view()[k] == gv.skip(
                1,
            )[k] by {
                assert(tail@[k] == gs0[k + 1]);
            }
            assert(tail.deep_view() =~= gv.skip(1));
        }
        let folded = fold_segs_vec(tail);
        let ghost fv = folded.deep_view();
        let ghost folded0 = folded@;
        proof {
            lemma_comps_view(&folded);
        }
        let ghost headv = head@;
        let mut out: Vec<String> = Vec::new();
        out.push(head);
        let mut rest = folded;
        out.append(&mut rest);
        proof {
            lemma_comps_view(&out);
            let target = seq![Seq::<char>::empty()] + fold_segs(gv.skip(1));
            assert forall|k: int| 0 <= k < out@.len() implies out.deep_view()[k] == target[k] by {
                if k == 0 {
                    assert(out@[0]@ == headv);
                    assert(headv == gv[0]);
                    assert(gv[0].len() == 0);
                    assert(gv[0] =~= Seq::<char>::empty());
                } else {
                    assert(out@[k] == folded0[k - 1]);
                    assert(out@[k]@ == fv[k - 1]);
                }
            }
            assert(out.deep_view() =~= target);
        }
        out
    } else {
        let r = fold_segs_vec(gs);
        proof {
            assert(r.deep_view() == fold_marked(gv));
        }
        r
    }
}

/// The components a symlink resolves to, from the consumed prefix and the raw
/// target.
pub fn link_next_vec(pref: &Vec<String>, target: &str) -> (r: Vec<String>)
    requires
        pref@.len() > 0,
    ensures
        r.deep_view() == link_next(pref.deep_view(), target@),
{
    let ghost pv = pref.deep_view();
    proof {
        lemma_comps_view(pref);
    }
    if is_abs_path(target) {
        let segs = parse_segs(target);
        let folded = fold_segs_vec(segs);
        let ghost fv = folded.deep_view();
        let ghost folded0 = folded@;
        proof {
            lemma_comps_view(&folded);
        }
        let mut out: Vec<String> = Vec::new();
        out.push(String::new());
        let mut rest = folded;
        out.append(&mut rest);
        proof {
            lemma_comps_view(&out);
            let target_seq = seq![Seq::<char>::empty()] + fold_segs(segs_of(target@));
            assert forall|k: int| 0 <= k < out@.len() implies out.deep_view()[k]
                == target_seq[k] by {
                if k == 0 {
                    assert(out@[0]@ =~= Seq::<char>::empty());
                } else {
                    assert(out@[k] == folded0[k - 1]);
                    assert(out@[k]@ == fv[k - 1]);
                }
            }
            assert(out.deep_view() =~= target_seq);
        }
        out
    } else {
        let mut base: Vec<String> = Vec::new();
        let mut i: usize = 0;
        while i < pref.len() - 1
            invariant
                pref@.len() > 0,
                i <= pref@.len() - 1,
                base@.len() == i,
                forall|k: int| 0 <= k < i ==> base@[k]@ == pref@[k]@,
            decreases pref@.len() - i,
        {
            base.push(pref[i].clone());
            i = i + 1;
        }
        proof {
            assert forall|k: int| 0 <= k < base@.len() implies base.deep_view()[k]
                == pv.drop_last()[k] by {
                assert(base.deep_view()[k] == base@[k]@);
                assert(pv.drop_last()[k] == pv[k]);
                assert(pv[k] == pref@[k]@);
            }
            assert(base.deep_view() =~= pv.drop_last());
        }
        proof {
            lemma_comps_view(&base);
        }
        let ghost base0 = base@;
        let ghost bv = base.deep_view();
        let segs = parse_segs(target);
        let ghost segs0 = segs@;
        let ghost sv = segs.deep_view();
        proof {
            lemma_comps_view(&segs);
        }
        let mut rest = segs;
        base.append(&mut rest);
        proof {
            lemma_comps_view(&base);
            let target_seq = pv.drop_last() + segs_of(target@);
            assert forall|k: int| 0 <= k < base@.len() implies base.deep_view()[k]
                == target_seq[k] by {
                if k < base0.len() {
                    assert(base@[k] == base0[k]);
                    assert(base@[k]@ == bv[k]);
                } else {
                    assert(base@[k] == segs0[k - base0.len()]);
                    assert(base@[k]@ == sv[k - base0.len()]);
                }
            }
            assert(base.deep_view() =~= target_seq);
        }
        let r = fold_marked_vec(base);
        proof {
            assert(r.deep_view() == link_next(pv, target@));
        }
        r
    }
}

/// The owned outcome of a following walk that did not fail.
pub enum ResolveOk {
    /// Some prefix was absent; `comps` is the path whose walk failed, with
    /// every symlink hop already applied.
    NotFound { comps: Vec<String> },
    /// The walk ended at the node summarized by `info`, whose canonical path
    /// is `comps`.
    Found { comps: Vec<String>, info: NodeInfo },
}

/// Whether the resolver's answer reports a settled specification answer.
pub open spec fn resolve_result_matches(
    r: Result<ResolveOk, FsError>,
    es: Seq<NodeV>,
    comps: Seq<Seq<char>>,
) -> bool {
    match r {
        Ok(ResolveOk::NotFound { comps: c }) => resolves_to(
            es,
            comps,
            ResolveSpec::NotFound { comps: c.deep_view() },
        ),
        Ok(ResolveOk::Found { comps: c, info }) => exists|node: NodeV|
            resolves_to(es, comps, ResolveSpec::Found { comps: c.deep_view(), node })
                && #[trigger] info_matches(info, node),
        Err(FsError::EmptyPath) => resolves_to(es, comps, ResolveSpec::Empty),
        Err(FsError::LeadsIntoFile) => resolves_to(es, comps, ResolveSpec::IntoFile),
        Err(FsError::SymlinkLoop) => resolves_to(es, comps, ResolveSpec::Loop) || resolve_at(
            es,
            comps,
            Seq::empty(),
            usize::MAX as nat,
        ) matches ResolveSpec::Out { .. },
        Err(_) => false,
    }
}

/// Runs the following walk on `comps` through entries `es`.
pub fn resolve_follow(es: &Vec<Node>, comps: Vec<String>, nfiles: Ghost<nat>) -> (r: Result<
    ResolveOk,
    FsError,
>)
    requires
        entries_wf(entries_view(es@), nfiles@),
    ensures
        resolve_result_matches(r, entries_view(es@), comps.deep_view()),
{
    let ghost ev = entries_view(es@);
    let ghost comps0 = comps.deep_view();
    let mut cur = comps;
    let mut seen: Vec<String> = Vec::new();
    let mut hops: usize = 0;
    proof {
        assert(seen.deep_view() =~= Seq::<Seq<char>>::empty());
    }
    loop
        invariant
            entries_wf(ev, nfiles@),
            ev == entries_view(es@),
            comps0 == comps.deep_view(),
            resolve_at(ev, comps0, Seq::empty(), hops as nat) == (ResolveSpec::Out {
                comps: cur.deep_view(),
                seen: seen.deep_view(),
            }),
        decreases usize::MAX - hops,
    {
        let ghost curv = cur.deep_view();
        let ghost seenv = seen.deep_view();
        proof {
            lemma_resolve_unroll(ev, comps0, Seq::empty(), hops as nat);
            assert(resolve_at(ev, comps0, Seq::empty(), (hops + 1) as nat) == resolve_at(
                ev,
                curv,
                seenv,
                1,
            ));
        }
        if hops == usize::MAX {
            return Err(FsError::SymlinkLoop);
        }
        if cur.len() == 0 {
            proof {
                assert(resolve_at(ev, curv, seenv, 1) == ResolveSpec::Empty);
            }
            return Err(FsError::EmptyPath);
        }
        let step = lookup_nf_exec(es, &cur, 0, nfiles);
        let ghost stepv = lookup_nf(ev, curv, 0);
        match step {
            LookupStep::NotFound => {
                proof {
                    assert(resolve_at(ev, curv, seenv, 1) == (ResolveSpec::NotFound {
                        comps: curv,
                    }));
                }
                return Ok(ResolveOk::NotFound { comps: cur });
            },
            LookupStep::IntoFile => {
                proof {
                    assert(resolve_at(ev, curv, seenv, 1) == ResolveSpec::IntoFile);
                }
                return Err(FsError::LeadsIntoFile);
            },
            LookupStep::Found { info } => {
                proof {
                    match stepv {
                        LookupNF::Found { node } => {
                            assert(resolve_at(ev, curv, seenv, 1) == (ResolveSpec::Found {
                                comps: curv,
                                node,
                            }));
                            assert(info_matches(info, node));
                        },
                        _ => {
                            assert(false);
                        },
                    }
                }
                return Ok(ResolveOk::Found { comps: cur, info });
            },
            LookupStep::Link { depth, target, modified: _ } => {
                proof {
                    lemma_lookup_nf_link_depth(ev, curv, 0);
                }
                let mut pref = cur;
                pref.truncate(depth);
                proof {
                    assert(pref.deep_view() =~= curv.take(depth as int));
                }
                let ghost seen1 = if seenv.len() == 0 {
                    seenv.push(path_str_of_comps(curv.take(depth as int)))
                } else {
                    seenv
                };
                if seen.len() == 0 {
                    let cur_str = comps_to_string(&pref);
                    proof {
                        lemma_comps_view(&seen);
                    }
                    seen.push(cur_str);
                    proof {
                        lemma_comps_view(&seen);
                        assert(seen.deep_view() =~= seen1);
                    }
                }
                proof {
                    assert(seen.deep_view() == seen1);
                }
                let tgt = link_next_vec(&pref, target.as_str());
                let tgt_str = comps_to_string(&tgt);
                let ghost tgtv = link_next(curv.take(depth as int), target@);
                let ghost tgtsv = tgt_str@;
                proof {
                    assert(tgt.deep_view() == tgtv);
                    assert(tgtsv == path_str_of_comps(tgtv));
                }
                if contains_str(&seen, tgt_str.as_str()) {
                    proof {
                        assert(resolve_at(ev, curv, seenv, 1) == ResolveSpec::Loop);
                    }
                    return Err(FsError::SymlinkLoop);
                }
                let ghost seen_pre = seen@;
                proof {
                    lemma_comps_view(&seen);
                }
                seen.push(tgt_str);
                cur = tgt;
                hops = hops + 1;
                proof {
                    lemma_comps_view(&seen);
                    assert forall|k: int| 0 <= k < seen@.len() implies seen.deep_view()[k]
                        == seen1.push(tgtsv)[k] by {
                        if k < seen_pre.len() {
                            assert(seen@[k] == seen_pre[k]);
                        } else {
                            assert(seen@[k]@ == tgtsv);
                        }
                    }
                    assert(seen.deep_view() =~= seen1.push(tgtsv));
                    match stepv {
                        LookupNF::Link { depth: d2, target: t2, .. } => {
                            assert(d2 == depth as int);
                            assert(t2 == target@);
                            assert(curv.take(d2) == pref.deep_view());
                            assert(link_next(curv.take(d2), t2) == tgtv);
                            assert(!seen1.contains(tgtsv));
                            assert(resolve_at(ev, tgtv, seen1.push(tgtsv), 0) == (ResolveSpec::Out {
                                comps: tgtv,
                                seen: seen1.push(tgtsv),
                            }));
                        },
                        _ => {
                            assert(false);
                        },
                    }
                    assert(resolve_at(ev, curv, seenv, 1) == (ResolveSpec::Out {
                        comps: tgtv,
                        seen: seen1.push(tgtsv),
                    }));
                    assert(resolve_at(ev, comps0, Seq::empty(), hops as nat) == (ResolveSpec::Out {
                        comps: cur.deep_view(),
                        seen: seen.deep_view(),
                    }));
                }
            },
        }
    }
}

} // verus!
