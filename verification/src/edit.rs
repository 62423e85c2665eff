//! The mutating tree editor.
//!
//! Every structural change first resolves its path read-only, then re-walks
//! the canonical components from the root and edits one directory's sorted
//! child list: inserting a fresh entry at its ordered position, replacing an
//! entry of the same name in place, or detaching an entry. The editors take
//! the entry vector by value and hand the edited vector back, so each change
//! is described exactly by a specification function over the tree mirror.

use vstd::prelude::*;

use crate::node::entries_sorted;
use crate::node::entries_view;
use crate::node::entries_wf;
use crate::node::find_entry;
use crate::node::idx_of;
use crate::node::insert_pos;
use crate::node::lemma_entries_view;
use crate::node::lemma_find_entry_view;
use crate::node::lemma_idx_of;
use crate::node::lemma_idx_of_first;
use crate::node::lemma_insert_sorted;
use crate::node::lemma_lex_irrefl;
use crate::node::lemma_remove_sorted;
use crate::node::lemma_update_sorted;
use crate::node::lex_lt;
use crate::node::node_name;
use crate::node::node_view;
use crate::node::nv_name;
use crate::node::nv_wf;
use crate::node::Node;
use crate::node::NodeV;

verus! {

/// The mirror of an update at one index.
pub proof fn lemma_view_update(es: Seq<Node>, k: int, n: Node)
    requires
        0 <= k < es.len(),
    ensures
        entries_view(es.update(k, n)) == entries_view(es).update(k, node_view(n)),
{
    lemma_entries_view(es);
    lemma_entries_view(es.update(k, n));
    assert(entries_view(es.update(k, n)) =~= entries_view(es).update(k, node_view(n)));
}

/// The mirror of an insertion at one index.
pub proof fn lemma_view_insert(es: Seq<Node>, k: int, n: Node)
    requires
        0 <= k <= es.len(),
    ensures
        entries_view(es.insert(k, n)) == entries_view(es).insert(k, node_view(n)),
{
    lemma_entries_view(es);
    lemma_entries_view(es.insert(k, n));
    assert(entries_view(es.insert(k, n)) =~= entries_view(es).insert(k, node_view(n)));
}

/// The mirror of a removal at one index.
pub proof fn lemma_view_remove(es: Seq<Node>, k: int)
    requires
        0 <= k < es.len(),
    ensures
        entries_view(es.remove(k)) == entries_view(es).remove(k),
{
    lemma_entries_view(es);
    lemma_entries_view(es.remove(k));
    assert(entries_view(es.remove(k)) =~= entries_view(es).remove(k));
}

/// The ordered position of a name among sorted entries: the first index
/// whose entry's name lies above it.
pub open spec fn ins_pos(es: Seq<NodeV>, name: Seq<char>) -> int
    decreases es.len(),
{
    if es.len() == 0 {
        0
    } else if lex_lt(name, nv_name(es[0])) {
        0
    } else {
        1 + ins_pos(es.skip(1), name)
    }
}

/// What `ins_pos` promises, and that those properties pin it down.
pub proof fn lemma_ins_pos(es: Seq<NodeV>, name: Seq<char>)
    ensures
        0 <= ins_pos(es, name) <= es.len(),
        forall|k: int| 0 <= k < ins_pos(es, name) ==> !lex_lt(name, nv_name(#[trigger] es[k])),
        ins_pos(es, name) < es.len() ==> lex_lt(name, nv_name(es[ins_pos(es, name)])),
    decreases es.len(),
{
    if es.len() == 0 {
    } else if lex_lt(name, nv_name(es[0])) {
    } else {
        lemma_ins_pos(es.skip(1), name);
        assert forall|k: int| 0 <= k < ins_pos(es, name) implies !lex_lt(
            name,
            nv_name(#[trigger] es[k]),
        ) by {
            if k >= 1 {
                assert(es.skip(1)[k - 1] == es[k]);
            }
        }
        if ins_pos(es, name) < es.len() {
            assert(es.skip(1)[ins_pos(es.skip(1), name)] == es[ins_pos(es, name)]);
        }
    }
}

/// Any position with the first-above property is the ordered position.
pub proof fn lemma_ins_pos_unique(es: Seq<NodeV>, name: Seq<char>, r: int)
    requires
        0 <= r <= es.len(),
        forall|k: int| 0 <= k < r ==> !lex_lt(name, nv_name(#[trigger] es[k])),
        r < es.len() ==> lex_lt(name, nv_name(es[r])),
    ensures
        ins_pos(es, name) == r,
{
    lemma_ins_pos(es, name);
    let p = ins_pos(es, name);
    if p < r {
        assert(!lex_lt(name, nv_name(es[p])));
    }
    if r < p {
        assert(!lex_lt(name, nv_name(es[r])));
    }
}

/// Whether the components from `i` on lead through directories to an existing
/// directory, whose child list [`dirs_entries`] returns.
pub open spec fn dirs_ok(es: Seq<NodeV>, comps: Seq<Seq<char>>, i: int) -> bool
    decreases comps.len() - i,
{
    if i >= comps.len() {
        true
    } else {
        let k = idx_of(es, comps[i]);
        if k == -1 {
            false
        } else {
            match es[k] {
                NodeV::Dir { entries, .. } => dirs_ok(entries, comps, i + 1),
                _ => false,
            }
        }
    }
}

/// The child list of the directory the components lead to.
pub open spec fn dirs_entries(es: Seq<NodeV>, comps: Seq<Seq<char>>, i: int) -> Seq<NodeV>
    decreases comps.len() - i,
{
    if i >= comps.len() {
        es
    } else {
        let k = idx_of(es, comps[i]);
        match es[k] {
            NodeV::Dir { entries, .. } => dirs_entries(entries, comps, i + 1),
            _ => es,
        }
    }
}

/// The tree with the reached directory's child list replaced by `newe`.
pub open spec fn set_dirs_at(
    es: Seq<NodeV>,
    comps: Seq<Seq<char>>,
    i: int,
    newe: Seq<NodeV>,
) -> Seq<NodeV>
    decreases comps.len() - i,
{
    if i >= comps.len() {
        newe
    } else {
        let k = idx_of(es, comps[i]);
        match es[k] {
            NodeV::Dir { name, created, modified, entries } => es.update(
                k,
                NodeV::Dir { name, created, modified, entries: set_dirs_at(entries, comps, i + 1, newe) },
            ),
            _ => es,
        }
    }
}

/// A child list with `n` put in: replacing the entry of the same name if one
/// exists, inserted at its ordered position otherwise.
pub open spec fn child_slot(es: Seq<NodeV>, n: NodeV) -> Seq<NodeV> {
    let k = idx_of(es, nv_name(n));
    if k == -1 {
        es.insert(ins_pos(es, nv_name(n)), n)
    } else {
        es.update(k, n)
    }
}

/// The tree with `n` put into the directory the components lead to.
pub open spec fn put_child(es: Seq<NodeV>, comps: Seq<Seq<char>>, i: int, n: NodeV) -> Seq<NodeV> {
    set_dirs_at(es, comps, i, child_slot(dirs_entries(es, comps, i), n))
}

/// The tree with the child named `name` detached from the directory the
/// components lead to.
pub open spec fn remove_child(
    es: Seq<NodeV>,
    comps: Seq<Seq<char>>,
    i: int,
    name: Seq<char>,
) -> Seq<NodeV> {
    let p = dirs_entries(es, comps, i);
    let k = idx_of(p, name);
    if k == -1 {
        es
    } else {
        set_dirs_at(es, comps, i, p.remove(k))
    }
}

/// Whether some component from `i` on runs into a file or symlink, which
/// blocks directory creation.
pub open spec fn dirs_blocked(es: Seq<NodeV>, comps: Seq<Seq<char>>, i: int) -> bool
    decreases comps.len() - i,
{
    if i >= comps.len() {
        false
    } else {
        let k = idx_of(es, comps[i]);
        if k == -1 {
            false
        } else {
            match es[k] {
                NodeV::Dir { entries, .. } => dirs_blocked(entries, comps, i + 1),
                _ => true,
            }
        }
    }
}

/// The tree with a directory made for every component from `i` on: existing
/// directories are descended, missing ones are created empty at time `now`.
pub open spec fn with_dirs(es: Seq<NodeV>, comps: Seq<Seq<char>>, i: int, now: u64) -> Seq<NodeV>
    decreases comps.len() - i,
{
    if i >= comps.len() {
        es
    } else {
        let k = idx_of(es, comps[i]);
        if k == -1 {
            let sub = with_dirs(Seq::empty(), comps, i + 1, now);
            es.insert(
                ins_pos(es, comps[i]),
                NodeV::Dir { name: comps[i], created: now, modified: now, entries: sub },
            )
        } else {
            match es[k] {
                NodeV::Dir { name, created, modified, entries } => es.update(
                    k,
                    NodeV::Dir {
                        name,
                        created,
                        modified,
                        entries: with_dirs(entries, comps, i + 1, now),
                    },
                ),
                _ => es,
            }
        }
    }
}

/// Replacing the child list at the end of a walkable path keeps the path
/// walkable and lands the new list exactly there.
pub proof fn lemma_set_dirs_at(es: Seq<NodeV>, comps: Seq<Seq<char>>, i: int, newe: Seq<NodeV>)
    requires
        dirs_ok(es, comps, i),
    ensures
        dirs_ok(set_dirs_at(es, comps, i, newe), comps, i),
        dirs_entries(set_dirs_at(es, comps, i, newe), comps, i) == newe,
    decreases comps.len() - i,
{
    if i >= comps.len() {
    } else {
        let ki = idx_of(es, comps[i]);
        lemma_idx_of(es, comps[i]);
        let r = set_dirs_at(es, comps, i, newe);
        match es[ki] {
            NodeV::Dir { name, created, modified, entries } => {
                let sub = set_dirs_at(entries, comps, i + 1, newe);
                let nd = NodeV::Dir { name, created, modified, entries: sub };
                assert(r == es.update(ki, nd));
                assert forall|j: int| 0 <= j < ki implies nv_name(#[trigger] r[j]) != comps[i] by {
                    assert(r[j] == es[j]);
                }
                assert(nv_name(r[ki]) == comps[i]);
                lemma_idx_of_first(r, comps[i], ki);
                lemma_set_dirs_at(entries, comps, i + 1, newe);
            },
            _ => {},
        }
    }
}

/// Putting a child keeps its parent path walkable and edits exactly that
/// parent's child list.
pub proof fn lemma_put_child_props(es: Seq<NodeV>, comps: Seq<Seq<char>>, i: int, n: NodeV)
    requires
        dirs_ok(es, comps, i),
    ensures
        dirs_ok(put_child(es, comps, i, n), comps, i),
        dirs_entries(put_child(es, comps, i, n), comps, i) == child_slot(
            dirs_entries(es, comps, i),
            n,
        ),
{
    lemma_set_dirs_at(es, comps, i, child_slot(dirs_entries(es, comps, i), n));
}

/// Detaching a child keeps its parent path walkable and edits exactly that
/// parent's child list.
pub proof fn lemma_remove_child_props(
    es: Seq<NodeV>,
    comps: Seq<Seq<char>>,
    i: int,
    name: Seq<char>,
)
    requires
        dirs_ok(es, comps, i),
    ensures
        dirs_ok(remove_child(es, comps, i, name), comps, i),
        dirs_entries(remove_child(es, comps, i, name), comps, i) == ({
            let p = dirs_entries(es, comps, i);
            let k = idx_of(p, name);
            if k == -1 {
                p
            } else {
                p.remove(k)
            }
        }),
{
    let p = dirs_entries(es, comps, i);
    let k = idx_of(p, name);
    if k != -1 {
        lemma_idx_of(p, name);
        lemma_set_dirs_at(es, comps, i, p.remove(k));
    }
}

/// Replacing the child list at the end of a walkable path swaps exactly that
/// list's contribution to the slot counts.
pub proof fn lemma_set_dirs_at_id(
    es: Seq<NodeV>,
    comps: Seq<Seq<char>>,
    i: int,
    newe: Seq<NodeV>,
    fid: int,
)
    requires
        dirs_ok(es, comps, i),
    ensures
        crate::node::id_count(crate::edit::set_dirs_at(es, comps, i, newe), fid)
            + crate::node::id_count(dirs_entries(es, comps, i), fid) == crate::node::id_count(
            es,
            fid,
        ) + crate::node::id_count(newe, fid),
    decreases comps.len() - i,
{
    if i >= comps.len() {
    } else {
        let k = idx_of(es, comps[i]);
        lemma_idx_of(es, comps[i]);
        match es[k] {
            NodeV::Dir { name, created, modified, entries } => {
                lemma_set_dirs_at_id(entries, comps, i + 1, newe, fid);
                let sub = set_dirs_at(entries, comps, i + 1, newe);
                let nd = NodeV::Dir { name, created, modified, entries: sub };
                crate::node::lemma_id_count_update(es, k, nd, fid);
            },
            _ => {},
        }
    }
}

/// The directory a walkable path leads to contributes no more to a slot
/// count than the whole tree does.
pub proof fn lemma_dirs_entries_id_le(es: Seq<NodeV>, comps: Seq<Seq<char>>, i: int, fid: int)
    requires
        dirs_ok(es, comps, i),
    ensures
        crate::node::id_count(dirs_entries(es, comps, i), fid) <= crate::node::id_count(es, fid),
    decreases comps.len() - i,
{
    if i >= comps.len() {
    } else {
        let k = idx_of(es, comps[i]);
        lemma_idx_of(es, comps[i]);
        match es[k] {
            NodeV::Dir { entries, .. } => {
                lemma_dirs_entries_id_le(entries, comps, i + 1, fid);
                crate::node::lemma_id_count_at(es, k, fid);
            },
            _ => {},
        }
    }
}

/// Making directories along an unblocked path adds no file node, so every
/// slot count stays as it was.
pub proof fn lemma_with_dirs_id(
    es: Seq<NodeV>,
    comps: Seq<Seq<char>>,
    i: int,
    now: u64,
    fid: int,
)
    requires
        !dirs_blocked(es, comps, i),
    ensures
        crate::node::id_count(with_dirs(es, comps, i, now), fid) == crate::node::id_count(es, fid),
    decreases comps.len() - i,
{
    if i >= comps.len() {
    } else {
        let k = idx_of(es, comps[i]);
        lemma_idx_of(es, comps[i]);
        if k == -1 {
            let sub = with_dirs(Seq::empty(), comps, i + 1, now);
            let n = NodeV::Dir { name: comps[i], created: now, modified: now, entries: sub };
            lemma_with_dirs_id(Seq::empty(), comps, i + 1, now, fid);
            lemma_ins_pos(es, comps[i]);
            crate::node::lemma_id_count_insert(es, ins_pos(es, comps[i]), n, fid);
        } else {
            match es[k] {
                NodeV::Dir { name, created, modified, entries } => {
                    lemma_with_dirs_id(entries, comps, i + 1, now, fid);
                    let sub = with_dirs(entries, comps, i + 1, now);
                    let nd = NodeV::Dir { name, created, modified, entries: sub };
                    crate::node::lemma_id_count_update(es, k, nd, fid);
                },
                _ => {},
            }
        }
    }
}

/// What putting a child does to a slot count: a fresh name adds the new
/// node's contribution, a replaced name swaps the old entry's contribution
/// for it.
pub proof fn lemma_put_child_id(es: Seq<NodeV>, comps: Seq<Seq<char>>, i: int, n: NodeV, fid: int)
    requires
        dirs_ok(es, comps, i),
    ensures
        ({
            let p = dirs_entries(es, comps, i);
            let k = idx_of(p, nv_name(n));
            if k == -1 {
                crate::node::id_count(put_child(es, comps, i, n), fid) == crate::node::id_count(
                    es,
                    fid,
                ) + crate::node::node_id_count(n, fid)
            } else {
                crate::node::id_count(put_child(es, comps, i, n), fid)
                    + crate::node::node_id_count(p[k], fid) == crate::node::id_count(es, fid)
                    + crate::node::node_id_count(n, fid)
            }
        }),
{
    let p = dirs_entries(es, comps, i);
    let k = idx_of(p, nv_name(n));
    lemma_idx_of(p, nv_name(n));
    lemma_set_dirs_at_id(es, comps, i, child_slot(p, n), fid);
    if k == -1 {
        lemma_ins_pos(p, nv_name(n));
        crate::node::lemma_id_count_insert(p, ins_pos(p, nv_name(n)), n, fid);
    } else {
        crate::node::lemma_id_count_update(p, k, n, fid);
    }
}

/// What detaching a child does to a slot count: the detached entry's
/// contribution is gone.
pub proof fn lemma_remove_child_id(
    es: Seq<NodeV>,
    comps: Seq<Seq<char>>,
    i: int,
    name: Seq<char>,
    fid: int,
)
    requires
        dirs_ok(es, comps, i),
    ensures
        ({
            let p = dirs_entries(es, comps, i);
            let k = idx_of(p, name);
            if k == -1 {
                remove_child(es, comps, i, name) == es
            } else {
                crate::node::id_count(remove_child(es, comps, i, name), fid)
                    + crate::node::node_id_count(p[k], fid) == crate::node::id_count(es, fid)
            }
        }),
{
    let p = dirs_entries(es, comps, i);
    let k = idx_of(p, name);
    lemma_idx_of(p, name);
    if k != -1 {
        lemma_set_dirs_at_id(es, comps, i, p.remove(k), fid);
        crate::node::lemma_id_count_remove(p, k, fid);
    }
}

/// Making directories along an unblocked path leaves that path walkable.
pub proof fn lemma_with_dirs_ok(es: Seq<NodeV>, comps: Seq<Seq<char>>, i: int, now: u64)
    requires
        !dirs_blocked(es, comps, i),
    ensures
        dirs_ok(with_dirs(es, comps, i, now), comps, i),
    decreases comps.len() - i,
{
    if i >= comps.len() {
    } else {
        let k = idx_of(es, comps[i]);
        let r = with_dirs(es, comps, i, now);
        if k == -1 {
            let sub = with_dirs(Seq::empty(), comps, i + 1, now);
            let n = NodeV::Dir { name: comps[i], created: now, modified: now, entries: sub };
            let p = ins_pos(es, comps[i]);
            lemma_ins_pos(es, comps[i]);
            lemma_idx_of(es, comps[i]);
            assert(r == es.insert(p, n));
            assert(r[p] == n);
            assert forall|j: int| 0 <= j < p implies nv_name(#[trigger] r[j]) != comps[i] by {
                assert(r[j] == es[j]);
            }
            lemma_idx_of_first(r, comps[i], p);
            assert(!dirs_blocked(Seq::<NodeV>::empty(), comps, i + 1));
            lemma_with_dirs_ok(Seq::empty(), comps, i + 1, now);
        } else {
            lemma_idx_of(es, comps[i]);
            match es[k] {
                NodeV::Dir { name, created, modified, entries } => {
                    let sub = with_dirs(entries, comps, i + 1, now);
                    let n = NodeV::Dir { name, created, modified, entries: sub };
                    assert(r == es.update(k, n));
                    assert forall|j: int| 0 <= j < k implies nv_name(#[trigger] r[j])
                        != comps[i] by {
                        assert(r[j] == es[j]);
                    }
                    assert(nv_name(r[k]) == comps[i]);
                    lemma_idx_of_first(r, comps[i], k);
                    lemma_with_dirs_ok(entries, comps, i + 1, now);
                },
                _ => {},
            }
        }
    }
}

/// A walkable path is never blocked: every component the walk meets is a
/// directory.
pub proof fn lemma_dirs_ok_not_blocked(es: Seq<NodeV>, comps: Seq<Seq<char>>, i: int)
    requires
        dirs_ok(es, comps, i),
    ensures
        !dirs_blocked(es, comps, i),
    decreases comps.len() - i,
{
    if i >= comps.len() {
    } else {
        let k = idx_of(es, comps[i]);
        lemma_idx_of(es, comps[i]);
        match es[k] {
            NodeV::Dir { entries, .. } => {
                lemma_dirs_ok_not_blocked(entries, comps, i + 1);
            },
            _ => {},
        }
    }
}

/// Making directories along a fully existing path changes nothing.
pub proof fn lemma_with_dirs_noop(es: Seq<NodeV>, comps: Seq<Seq<char>>, i: int, now: u64)
    requires
        dirs_ok(es, comps, i),
    ensures
        with_dirs(es, comps, i, now) == es,
    decreases comps.len() - i,
{
    if i >= comps.len() {
    } else {
        let k = idx_of(es, comps[i]);
        lemma_idx_of(es, comps[i]);
        match es[k] {
            NodeV::Dir { name, created, modified, entries } => {
                lemma_with_dirs_noop(entries, comps, i + 1, now);
                assert(with_dirs(es, comps, i, now) =~= es);
            },
            _ => {},
        }
    }
}

/// A walk that finds a directory at its last component walks through
/// directories the whole way, and lands at that directory's children.
pub proof fn lemma_lookup_found_dir(es: Seq<NodeV>, comps: Seq<Seq<char>>, i: int)
    requires
        crate::lookup::lookup_nf(es, comps, i) matches crate::lookup::LookupNF::Found { node }
            && node matches NodeV::Dir { .. },
    ensures
        dirs_ok(es, comps, i),
        crate::lookup::lookup_nf(es, comps, i) matches crate::lookup::LookupNF::Found { node }
            && (node matches NodeV::Dir { entries, .. } && dirs_entries(es, comps, i) == entries),
    decreases comps.len() - i,
{
    assert(0 <= i < comps.len());
    lemma_idx_of(es, comps[i]);
    let k = idx_of(es, comps[i]);
    assert(k != -1);
    match es[k] {
        NodeV::Dir { entries, .. } => {
            if i == comps.len() - 1 {
                assert(dirs_ok(entries, comps, i + 1));
                assert(dirs_entries(entries, comps, i + 1) == entries);
                assert(dirs_entries(es, comps, i) == dirs_entries(entries, comps, i + 1));
            } else {
                lemma_lookup_found_dir(entries, comps, i + 1);
                assert(dirs_ok(entries, comps, i + 1));
            }
        },
        NodeV::File { .. } => {
            assert(false);
        },
        NodeV::Symlink { .. } => {
            assert(false);
        },
    }
}

/// The directory a walkable path leads to is as well-formed as the tree.
pub proof fn lemma_dirs_entries_wf(es: Seq<NodeV>, comps: Seq<Seq<char>>, i: int, nfiles: nat)
    requires
        entries_wf(es, nfiles),
        dirs_ok(es, comps, i),
    ensures
        entries_wf(dirs_entries(es, comps, i), nfiles),
    decreases comps.len() - i,
{
    if i >= comps.len() {
    } else {
        let k = idx_of(es, comps[i]);
        lemma_idx_of(es, comps[i]);
        match es[k] {
            NodeV::Dir { entries, .. } => {
                assert(nv_wf(es[k], nfiles));
                lemma_dirs_entries_wf(entries, comps, i + 1, nfiles);
            },
            _ => {},
        }
    }
}

/// Whether some component from `i` on runs into a file or symlink.
pub fn blocked_at(es: &Vec<Node>, comps: &Vec<String>, i: usize, nfiles: Ghost<nat>) -> (r: bool)
    requires
        entries_wf(entries_view(es@), nfiles@),
    ensures
        r == dirs_blocked(entries_view(es@), comps.deep_view(), i as int),
    decreases comps.len() - i,
{
    let ghost ev = entries_view(es@);
    proof {
        lemma_entries_view(es@);
    }
    if i >= comps.len() {
        return false;
    }
    let name = &comps[i];
    let found = find_entry(es, name.as_str());
    proof {
        lemma_find_entry_view(es@, name@, found);
    }
    match found {
        None => false,
        Some(k) => {
            match &es[k] {
                Node::Dir { entries, .. } => {
                    proof {
                        assert(ev[k as int] == node_view(es@[k as int]));
                        assert(nv_wf(ev[k as int], nfiles@));
                    }
                    blocked_at(entries, comps, i + 1, nfiles)
                },
                _ => {
                    proof {
                        assert(ev[k as int] == node_view(es@[k as int]));
                    }
                    true
                },
            }
        },
    }
}

/// Walks to the directory the components lead to and returns its child list.
pub fn dir_entries_at<'a>(es: &'a Vec<Node>, comps: &Vec<String>, i: usize, nfiles: Ghost<nat>) -> (r:
    Option<&'a Vec<Node>>)
    requires
        entries_wf(entries_view(es@), nfiles@),
    ensures
        match r {
            Some(sub) => dirs_ok(entries_view(es@), comps.deep_view(), i as int) && entries_view(
                sub@,
            ) == dirs_entries(entries_view(es@), comps.deep_view(), i as int) && entries_wf(
                entries_view(sub@),
                nfiles@,
            ),
            None => !dirs_ok(entries_view(es@), comps.deep_view(), i as int),
        },
    decreases comps.len() - i,
{
    let ghost ev = entries_view(es@);
    let ghost cv = comps.deep_view();
    proof {
        lemma_entries_view(es@);
    }
    if i >= comps.len() {
        return Some(es);
    }
    let name = &comps[i];
    let found = find_entry(es, name.as_str());
    proof {
        lemma_find_entry_view(es@, name@, found);
    }
    match found {
        None => None,
        Some(k) => {
            match &es[k] {
                Node::Dir { entries, .. } => {
                    proof {
                        assert(ev[k as int] == node_view(es@[k as int]));
                        assert(nv_wf(ev[k as int], nfiles@));
                    }
                    dir_entries_at(entries, comps, i + 1, nfiles)
                },
                _ => {
                    proof {
                        assert(ev[k as int] == node_view(es@[k as int]));
                    }
                    None
                },
            }
        },
    }
}

/// Puts `node` into the directory the components lead to, replacing any
/// entry of the same name and keeping children sorted.
pub fn put_child_at(
    es: Vec<Node>,
    comps: &Vec<String>,
    i: usize,
    node: Node,
    nfiles: Ghost<nat>,
) -> (r: Vec<Node>)
    requires
        entries_wf(entries_view(es@), nfiles@),
        dirs_ok(entries_view(es@), comps.deep_view(), i as int),
        nv_wf(node_view(node), nfiles@),
    ensures
        entries_view(r@) == put_child(entries_view(es@), comps.deep_view(), i as int, node_view(node)),
        entries_wf(entries_view(r@), nfiles@),
    decreases comps.len() - i,
{
    let ghost ev = entries_view(es@);
    let ghost cv = comps.deep_view();
    let ghost nv = node_view(node);
    proof {
        lemma_entries_view(es@);
    }
    let ghost es0 = es@;
    let mut es = es;
    if i >= comps.len() {
        let found = find_entry(&es, node_name(&node).as_str());
        proof {
            lemma_find_entry_view(es@, nv_name(nv), found);
        }
        match found {
            Some(k) => {
                let _old = es.remove(k);
                es.insert(k, node);
                proof {
                    assert(es@ =~= es0.update(k as int, es@[k as int]));
                    assert(node_view(es@[k as int]) == nv);
                    lemma_view_update(es0, k as int, es@[k as int]);
                    assert(entries_view(es@) == ev.update(k as int, nv));
                    lemma_update_sorted(ev, nv, k as int);
                    lemma_entries_view(es@);
                    assert(entries_wf(entries_view(es@), nfiles@));
                }
                es
            },
            None => {
                let pos = insert_pos(&es, node_name(&node).as_str());
                es.insert(pos, node);
                proof {
                    assert(es@ =~= es0.insert(pos as int, es@[pos as int]));
                    assert(node_view(es@[pos as int]) == nv);
                    lemma_view_insert(es0, pos as int, es@[pos as int]);
                    assert(entries_view(es@) == ev.insert(pos as int, nv));
                    assert forall|k: int| 0 <= k < pos implies !lex_lt(
                        nv_name(nv),
                        nv_name(#[trigger] ev[k]),
                    ) by {
                        assert(ev[k] == node_view(es0[k]));
                    }
                    if (pos as int) < ev.len() {
                        assert(ev[pos as int] == node_view(es0[pos as int]));
                    }
                    lemma_ins_pos_unique(ev, nv_name(nv), pos as int);
                    assert forall|k: int| 0 <= k < ev.len() implies nv_name(#[trigger] ev[k])
                        != nv_name(nv) by {
                        assert(ev[k] == node_view(es0[k]));
                    }
                    lemma_insert_sorted(ev, nv, pos as int);
                    lemma_entries_view(es@);
                    assert(entries_wf(entries_view(es@), nfiles@));
                }
                es
            },
        }
    } else {
        let name = &comps[i];
        proof {
            assert(cv[i as int] == name@);
        }
        let found = find_entry(&es, name.as_str());
        proof {
            lemma_find_entry_view(es@, name@, found);
        }
        match found {
            Some(k) => {
                let ghost kk = k as int;
                let nd = es.remove(k);
                proof {
                    assert(nd == es0[kk]);
                    assert(node_view(nd) == ev[kk]);
                }
                match nd {
                    Node::Dir { name: dn, created, modified, entries } => {
                        proof {
                            assert(node_view(es0[kk]) matches NodeV::Dir { .. });
                            assert(nv_wf(ev[kk], nfiles@));
                        }
                        let ghost childv = entries_view(entries@);
                        let sub = put_child_at(entries, comps, i + 1, node, nfiles);
                        let newdir = Node::Dir { name: dn, created, modified, entries: sub };
                        let ghost newv = node_view(newdir);
                        es.insert(k, newdir);
                        proof {
                            assert(es@ =~= es0.update(kk, es@[kk]));
                            assert(node_view(es@[kk]) == newv);
                            lemma_view_update(es0, kk, es@[kk]);
                            assert(entries_view(es@) == ev.update(kk, newv));
                            assert(newv == (NodeV::Dir {
                                name: nv_name(ev[kk]),
                                created,
                                modified,
                                entries: put_child(childv, cv, i as int + 1, nv),
                            }));
                            assert(dirs_entries(ev, cv, i as int) == dirs_entries(
                                childv,
                                cv,
                                i as int + 1,
                            ));
                            assert(put_child(ev, cv, i as int, nv) == ev.update(kk, newv));
                            lemma_update_sorted(ev, newv, kk);
                            lemma_entries_view(es@);
                            assert(entries_wf(entries_view(es@), nfiles@));
                        }
                        es
                    },
                    other => {
                        proof {
                            assert(false);
                        }
                        es.insert(k, other);
                        es
                    },
                }
            },
            None => {
                proof {
                    assert(false);
                }
                es
            },
        }
    }
}

/// Detaches the child named `name` from the directory the components lead
/// to, returning the edited tree and the detached entry, if any.
pub fn remove_child_at(
    es: Vec<Node>,
    comps: &Vec<String>,
    i: usize,
    name: &str,
    nfiles: Ghost<nat>,
) -> (r: (Vec<Node>, Option<Node>))
    requires
        entries_wf(entries_view(es@), nfiles@),
        dirs_ok(entries_view(es@), comps.deep_view(), i as int),
    ensures
        entries_view(r.0@) == remove_child(entries_view(es@), comps.deep_view(), i as int, name@),
        entries_wf(entries_view(r.0@), nfiles@),
        ({
            let p = dirs_entries(entries_view(es@), comps.deep_view(), i as int);
            match r.1 {
                Some(n) => idx_of(p, name@) != -1 && node_view(n) == p[idx_of(p, name@)],
                None => idx_of(p, name@) == -1,
            }
        }),
    decreases comps.len() - i,
{
    let ghost ev = entries_view(es@);
    let ghost cv = comps.deep_view();
    proof {
        lemma_entries_view(es@);
    }
    let ghost es0 = es@;
    let mut es = es;
    if i >= comps.len() {
        let found = find_entry(&es, name);
        proof {
            lemma_find_entry_view(es@, name@, found);
        }
        match found {
            Some(k) => {
                let nd = es.remove(k);
                proof {
                    assert(nd == es0[k as int]);
                    assert(node_view(nd) == ev[k as int]);
                    lemma_view_remove(es0, k as int);
                    lemma_remove_sorted(ev, k as int);
                    lemma_entries_view(es@);
                    assert(entries_wf(entries_view(es@), nfiles@));
                }
                (es, Some(nd))
            },
            None => (es, None),
        }
    } else {
        let name_i = &comps[i];
        proof {
            assert(cv[i as int] == name_i@);
        }
        let found = find_entry(&es, name_i.as_str());
        proof {
            lemma_find_entry_view(es@, name_i@, found);
        }
        match found {
            Some(k) => {
                let ghost kk = k as int;
                let nd = es.remove(k);
                proof {
                    assert(nd == es0[kk]);
                    assert(node_view(nd) == ev[kk]);
                }
                match nd {
                    Node::Dir { name: dn, created, modified, entries } => {
                        proof {
                            assert(nv_wf(ev[kk], nfiles@));
                        }
                        let ghost childv = entries_view(entries@);
                        let (sub, removed) = remove_child_at(entries, comps, i + 1, name, nfiles);
                        let newdir = Node::Dir { name: dn, created, modified, entries: sub };
                        let ghost newv = node_view(newdir);
                        es.insert(k, newdir);
                        proof {
                            assert(es@ =~= es0.update(kk, es@[kk]));
                            assert(node_view(es@[kk]) == newv);
                            lemma_view_update(es0, kk, es@[kk]);
                            assert(entries_view(es@) == ev.update(kk, newv));
                            assert(dirs_entries(ev, cv, i as int) == dirs_entries(
                                childv,
                                cv,
                                i as int + 1,
                            ));
                            let p = dirs_entries(childv, cv, i as int + 1);
                            if idx_of(p, name@) == -1 {
                                assert(remove_child(childv, cv, i as int + 1, name@) == childv);
                                assert(newv == ev[kk]);
                                assert(entries_view(es@) =~= ev);
                                assert(remove_child(ev, cv, i as int, name@) == ev);
                            } else {
                                assert(remove_child(ev, cv, i as int, name@) == ev.update(
                                    kk,
                                    newv,
                                ));
                            }
                            lemma_update_sorted(ev, newv, kk);
                            lemma_entries_view(es@);
                            assert(entries_wf(entries_view(es@), nfiles@));
                        }
                        (es, removed)
                    },
                    other => {
                        proof {
                            assert(false);
                        }
                        es.insert(k, other);
                        (es, None)
                    },
                }
            },
            None => {
                proof {
                    assert(false);
                }
                (es, None)
            },
        }
    }
}

/// Makes a directory for every component from `i` on: existing directories
/// are descended, missing ones are created empty at time `now`.
pub fn create_dirs_at(
    es: Vec<Node>,
    comps: &Vec<String>,
    i: usize,
    now: u64,
    nfiles: Ghost<nat>,
) -> (r: Vec<Node>)
    requires
        entries_wf(entries_view(es@), nfiles@),
        !dirs_blocked(entries_view(es@), comps.deep_view(), i as int),
    ensures
        entries_view(r@) == with_dirs(entries_view(es@), comps.deep_view(), i as int, now),
        entries_wf(entries_view(r@), nfiles@),
    decreases comps.len() - i,
{
    let ghost ev = entries_view(es@);
    let ghost cv = comps.deep_view();
    proof {
        lemma_entries_view(es@);
    }
    let ghost es0 = es@;
    let mut es = es;
    if i >= comps.len() {
        return es;
    }
    let name = &comps[i];
    proof {
        assert(cv[i as int] == name@);
    }
    let found = find_entry(&es, name.as_str());
    proof {
        lemma_find_entry_view(es@, name@, found);
    }
    match found {
        Some(k) => {
            let ghost kk = k as int;
            let nd = es.remove(k);
            proof {
                assert(nd == es0[kk]);
                assert(node_view(nd) == ev[kk]);
            }
            match nd {
                Node::Dir { name: dn, created, modified, entries } => {
                    proof {
                        assert(nv_wf(ev[kk], nfiles@));
                    }
                    let ghost childv = entries_view(entries@);
                    let sub = create_dirs_at(entries, comps, i + 1, now, nfiles);
                    let newdir = Node::Dir { name: dn, created, modified, entries: sub };
                    let ghost newv = node_view(newdir);
                    es.insert(k, newdir);
                    proof {
                        assert(es@ =~= es0.update(kk, es@[kk]));
                        assert(node_view(es@[kk]) == newv);
                        lemma_view_update(es0, kk, es@[kk]);
                        assert(entries_view(es@) == ev.update(kk, newv));
                        assert(with_dirs(ev, cv, i as int, now) == ev.update(kk, newv));
                        lemma_update_sorted(ev, newv, kk);
                        lemma_entries_view(es@);
                        assert(entries_wf(entries_view(es@), nfiles@));
                    }
                    es
                },
                other => {
                    proof {
                        assert(false);
                    }
                    es.insert(k, other);
                    es
                },
            }
        },
        None => {
            let pos = insert_pos(&es, name.as_str());
            let sub = create_dirs_at(Vec::new(), comps, i + 1, now, nfiles);
            let ghost subv = entries_view(sub@);
            let newdir = Node::Dir {
                name: name.clone(),
                created: now,
                modified: now,
                entries: sub,
            };
            let ghost newv = node_view(newdir);
            es.insert(pos, newdir);
            proof {
                assert(entries_view(Seq::<Node>::empty()) =~= Seq::<NodeV>::empty());
                assert(es@ =~= es0.insert(pos as int, es@[pos as int]));
                assert(node_view(es@[pos as int]) == newv);
                lemma_view_insert(es0, pos as int, es@[pos as int]);
                assert(entries_view(es@) == ev.insert(pos as int, newv));
                assert forall|k: int| 0 <= k < pos implies !lex_lt(
                    name@,
                    nv_name(#[trigger] ev[k]),
                ) by {
                    assert(ev[k] == node_view(es0[k]));
                }
                if (pos as int) < ev.len() {
                    assert(ev[pos as int] == node_view(es0[pos as int]));
                }
                lemma_ins_pos_unique(ev, name@, pos as int);
                assert(with_dirs(ev, cv, i as int, now) == ev.insert(pos as int, newv));
                assert forall|k: int| 0 <= k < ev.len() implies nv_name(#[trigger] ev[k])
                    != name@ by {
                    assert(ev[k] == node_view(es0[k]));
                }
                lemma_insert_sorted(ev, newv, pos as int);
                lemma_entries_view(es@);
                assert(entries_wf(entries_view(es@), nfiles@));
            }
            es
        },
    }
}

} // verus!
