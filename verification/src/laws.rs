//! The laws the file system obeys, stated and proved against the
//! specification functions that the operations' contracts use.

use vstd::prelude::*;

use crate::edit::child_slot;
use crate::edit::dirs_entries;
use crate::error::FsError;
use crate::edit::dirs_ok;
use crate::edit::ins_pos;
use crate::edit::lemma_ins_pos;
use crate::edit::lemma_put_child_props;
use crate::edit::lemma_with_dirs_ok;
use crate::edit::put_child;
use crate::edit::remove_child;
use crate::edit::with_dirs;
use crate::lookup::lookup_nf;
use crate::lookup::resolve_at;
use crate::lookup::resolves_to;
use crate::lookup::LookupNF;
use crate::lookup::ResolveSpec;
use crate::node::entries_sorted;
use crate::node::FileDataV;
use crate::node::idx_of;
use crate::node::lemma_idx_of;
use crate::node::lemma_idx_of_first;
use crate::node::lemma_lex_irrefl;
use crate::node::nv_name;
use crate::node::NodeV;
use crate::options::OpenOptions;
use crate::sys::open_matches;
use crate::sys::read_matches;
use crate::sys::rename_matches;
use crate::sys::spliced;
use crate::sys::write_matches;
use crate::sys::InMemoryFile;

verus! {

/// A walk through existing directories is a found walk: walkability of a
/// nonempty component list means the no-follow lookup finds the directory at
/// its end.
pub proof fn lemma_dirs_ok_lookup(es: Seq<NodeV>, comps: Seq<Seq<char>>, i: int)
    requires
        0 <= i < comps.len(),
        dirs_ok(es, comps, i),
    ensures
        lookup_nf(es, comps, i) matches LookupNF::Found { node } && (node matches NodeV::Dir {
            entries,
            ..
        } && entries == dirs_entries(es, comps, i)),
    decreases comps.len() - i,
{
    let k = idx_of(es, comps[i]);
    lemma_idx_of(es, comps[i]);
    match es[k] {
        NodeV::Dir { entries, .. } => {
            if i == comps.len() - 1 {
                assert(lookup_nf(es, comps, i) == (LookupNF::Found { node: es[k] }));
                assert(dirs_entries(entries, comps, i + 1) == entries);
                assert(dirs_entries(es, comps, i) == dirs_entries(entries, comps, i + 1));
            } else {
                lemma_dirs_ok_lookup(entries, comps, i + 1);
                assert(lookup_nf(es, comps, i) == lookup_nf(entries, comps, i + 1));
                assert(dirs_entries(es, comps, i) == dirs_entries(entries, comps, i + 1));
            }
        },
        _ => {},
    }
}

/// Putting a named child into a sorted list leaves it findable under its
/// name, carrying exactly the put node, and leaves every other name bound as
/// before.
pub proof fn lemma_child_slot_found(p: Seq<NodeV>, n: NodeV)
    requires
        entries_sorted(p),
    ensures
        idx_of(child_slot(p, n), nv_name(n)) != -1,
        child_slot(p, n)[idx_of(child_slot(p, n), nv_name(n))] == n,
        forall|m: Seq<char>|
            m != nv_name(n) ==> ((idx_of(p, m) == -1 <==> #[trigger] idx_of(child_slot(p, n), m)
                == -1) && (idx_of(p, m) != -1 ==> child_slot(p, n)[idx_of(child_slot(p, n), m)]
                == p[idx_of(p, m)])),
{
    let name = nv_name(n);
    let k = idx_of(p, name);
    lemma_idx_of(p, name);
    let p2 = child_slot(p, n);
    if k == -1 {
        let pos = ins_pos(p, name);
        lemma_ins_pos(p, name);
        assert(p2 == p.insert(pos, n));
        assert(p2[pos] == n);
        assert forall|j: int| 0 <= j < pos implies nv_name(#[trigger] p2[j]) != name by {
            assert(p2[j] == p[j]);
        }
        lemma_idx_of_first(p2, name, pos);
        assert forall|m: Seq<char>| m != name implies ((idx_of(p, m) == -1 <==> #[trigger] idx_of(
            p2,
            m,
        ) == -1) && (idx_of(p, m) != -1 ==> p2[idx_of(p2, m)] == p[idx_of(p, m)])) by {
            lemma_idx_of(p, m);
            lemma_idx_of(p2, m);
            let km = idx_of(p, m);
            let k2 = idx_of(p2, m);
            if km != -1 {
                let j2 = if km < pos {
                    km
                } else {
                    km + 1
                };
                assert(p2[j2] == p[km]);
                assert forall|j: int| 0 <= j < j2 implies nv_name(#[trigger] p2[j]) != m by {
                    if j < pos {
                        assert(p2[j] == p[j]);
                    } else if j == pos {
                    } else {
                        assert(p2[j] == p[j - 1]);
                    }
                }
                lemma_idx_of_first(p2, m, j2);
            } else {
                if k2 != -1 {
                    assert(nv_name(p2[k2]) == m);
                    if k2 < pos {
                        assert(p2[k2] == p[k2]);
                    } else if k2 == pos {
                    } else {
                        assert(p2[k2] == p[k2 - 1]);
                    }
                    assert(false);
                }
            }
        }
    } else {
        assert(p2 == p.update(k, n));
        assert(nv_name(p2[k]) == name);
        assert forall|j: int| 0 <= j < k implies nv_name(#[trigger] p2[j]) != name by {
            assert(p2[j] == p[j]);
        }
        lemma_idx_of_first(p2, name, k);
        assert forall|m: Seq<char>| m != name implies ((idx_of(p, m) == -1 <==> #[trigger] idx_of(
            p2,
            m,
        ) == -1) && (idx_of(p, m) != -1 ==> p2[idx_of(p2, m)] == p[idx_of(p, m)])) by {
            lemma_idx_of(p, m);
            lemma_idx_of(p2, m);
            let km = idx_of(p, m);
            let k2 = idx_of(p2, m);
            if km != -1 {
                assert(km != k);
                assert(p2[km] == p[km]);
                assert forall|j: int| 0 <= j < km implies nv_name(#[trigger] p2[j]) != m by {
                    if j != k {
                        assert(p2[j] == p[j]);
                    }
                }
                lemma_idx_of_first(p2, m, km);
            } else {
                if k2 != -1 {
                    assert(nv_name(p2[k2]) == m);
                    if k2 != k {
                        assert(p2[k2] == p[k2]);
                    }
                    assert(false);
                }
            }
        }
    }
}

/// Detaching a named child from a sorted list removes that name entirely and
/// leaves every other name bound as before.
pub proof fn lemma_remove_gone(p: Seq<NodeV>, name: Seq<char>)
    requires
        entries_sorted(p),
        idx_of(p, name) != -1,
    ensures
        idx_of(p.remove(idx_of(p, name)), name) == -1,
        forall|m: Seq<char>|
            m != name ==> ((idx_of(p, m) == -1 <==> #[trigger] idx_of(
                p.remove(idx_of(p, name)),
                m,
            ) == -1) && (idx_of(p, m) != -1 ==> p.remove(idx_of(p, name))[idx_of(
                p.remove(idx_of(p, name)),
                m,
            )] == p[idx_of(p, m)])),
{
    let k = idx_of(p, name);
    lemma_idx_of(p, name);
    let p2 = p.remove(k);
    lemma_idx_of(p2, name);
    if idx_of(p2, name) != -1 {
        let j = idx_of(p2, name);
        let oj = if j < k {
            j
        } else {
            j + 1
        };
        assert(p2[j] == p[oj]);
        assert(oj != k);
        assert(nv_name(p[oj]) == name);
        crate::node::lemma_idx_of_unique(p, name, oj);
        crate::node::lemma_idx_of_unique(p, name, k);
        assert(false);
    }
    assert forall|m: Seq<char>| m != name implies ((idx_of(p, m) == -1 <==> #[trigger] idx_of(
        p2,
        m,
    ) == -1) && (idx_of(p, m) != -1 ==> p2[idx_of(p2, m)] == p[idx_of(p, m)])) by {
        lemma_idx_of(p, m);
        lemma_idx_of(p2, m);
        let km = idx_of(p, m);
        let k2 = idx_of(p2, m);
        if km != -1 {
            assert(km != k);
            let j2 = if km < k {
                km
            } else {
                km - 1
            };
            assert(p2[j2] == p[km]);
            assert forall|j: int| 0 <= j < j2 implies nv_name(#[trigger] p2[j]) != m by {
                let oj = if j < k {
                    j
                } else {
                    j + 1
                };
                assert(p2[j] == p[oj]);
            }
            lemma_idx_of_first(p2, m, j2);
        } else {
            if k2 != -1 {
                let oj = if k2 < k {
                    k2
                } else {
                    k2 + 1
                };
                assert(p2[k2] == p[oj]);
                assert(false);
            }
        }
    }
}

/// Putting a detached child straight back restores the child list.
pub proof fn lemma_restore_id(p: Seq<NodeV>, k: int)
    requires
        entries_sorted(p),
        0 <= k < p.len(),
    ensures
        child_slot(p.remove(k), p[k]) == p,
{
    let n = p[k];
    let name = nv_name(n);
    assert forall|j: int| 0 <= j < k implies nv_name(#[trigger] p[j]) != name by {
        if nv_name(p[j]) == name {
            crate::node::lemma_idx_of_unique(p, name, j);
            crate::node::lemma_idx_of_unique(p, name, k);
        }
    }
    lemma_idx_of_first(p, name, k);
    let p2 = p.remove(k);
    crate::node::lemma_remove_sorted(p, k);
    lemma_remove_gone(p, name);
    assert(idx_of(p2, name) == -1);
    let pos = ins_pos(p2, name);
    lemma_ins_pos(p2, name);
    assert forall|j: int| 0 <= j < k implies !crate::node::lex_lt(
        name,
        nv_name(#[trigger] p2[j]),
    ) by {
        assert(p2[j] == p[j]);
        assert(crate::node::lex_lt(nv_name(p[j]), name));
        crate::node::lemma_lex_connected(name, nv_name(p[j]));
        if crate::node::lex_lt(name, nv_name(p[j])) {
            crate::node::lemma_lex_trans(name, nv_name(p[j]), name);
            lemma_lex_irrefl(name);
        }
    }
    if k < p2.len() {
        assert(p2[k] == p[k + 1]);
        assert(crate::node::lex_lt(name, nv_name(p2[k])));
    }
    crate::edit::lemma_ins_pos_unique(p2, name, k);
    assert(child_slot(p2, n) == p2.insert(k, n));
    assert(p2.insert(k, n) =~= p);
}

/// Opening with `truncate` leaves the file holding zero bytes immediately,
/// before any write: whatever it held and whether it existed, the opened
/// handle's file is empty.
pub proof fn lemma_truncate_clears(
    h: InMemoryFile,
    tree: Seq<NodeV>,
    store: Seq<FileDataV>,
    tree2: Seq<NodeV>,
    store2: Seq<FileDataV>,
    comps: Seq<Seq<char>>,
    opts: OpenOptions,
    now: u64,
)
    requires
        open_matches(Ok(h), tree, store, tree2, store2, comps, opts, now),
        opts.truncate,
        crate::node::entries_wf(tree, store.len() as nat),
    ensures
        store2[h.id_view()].data == Seq::<u8>::empty(),
        h.pos_view() == 0,
{
    assert(comps.len() >= 2);
    let parent = comps.drop_last();
    let name = comps.last();
    let (pc, dn) = choose|pc: Seq<Seq<char>>, dn: NodeV|
        #[trigger] resolves_to(tree, parent, ResolveSpec::Found { comps: pc, node: dn })
            && dirs_ok(tree, pc, 0) && ({
            let p = dirs_entries(tree, pc, 0);
            let k = idx_of(p, name);
            if k != -1 {
                &&& p[k] matches NodeV::File { file_id, .. } && h.id_view() == file_id
                    && !opts.create_new
                &&& tree2 == tree
                &&& store2 == if opts.truncate {
                    store.update(
                        h.id_view(),
                        FileDataV {
                            data: Seq::empty(),
                            mode: store[h.id_view()].mode,
                            created: store[h.id_view()].created,
                            modified: now,
                        },
                    )
                } else {
                    store
                }
                &&& h.pos_view() == if opts.append {
                    store2[h.id_view()].data.len() as int
                } else {
                    0
                }
            } else {
                &&& opts.create
                &&& h.id_view() == store.len()
                &&& store2 == store.push(
                    FileDataV {
                        data: Seq::empty(),
                        mode: match opts.mode {
                            Some(m) => m,
                            None => 0o666,
                        },
                        created: now,
                        modified: now,
                    },
                )
                &&& tree2 == put_child(
                    tree,
                    pc,
                    0,
                    NodeV::File { name, file_id: store.len() as int },
                )
                &&& h.pos_view() == 0
            }
        });
    let p = dirs_entries(tree, pc, 0);
    let k = idx_of(p, name);
    if k != -1 {
        crate::edit::lemma_dirs_entries_wf(tree, pc, 0, store.len() as nat);
        lemma_idx_of(p, name);
        assert(crate::node::nv_wf(p[k], store.len() as nat));
        assert(0 <= h.id_view() < store.len());
        assert(store2[h.id_view()].data =~= Seq::<u8>::empty());
    } else {
        assert(store2[h.id_view()].data =~= Seq::<u8>::empty());
    }
}

/// Writing bytes at the start of a fresh, empty file leaves exactly those
/// bytes.
pub proof fn lemma_fresh_write(b: Seq<u8>)
    ensures
        spliced(Seq::empty(), 0, b) == b,
{
    assert(spliced(Seq::empty(), 0, b) =~= b);
}

/// Writing a whole file and then reading it back through the same path
/// yields exactly the written bytes, whenever the path's parent is a plain
/// directory chain with no symlink in the way.
pub proof fn lemma_write_then_read(
    tree: Seq<NodeV>,
    store: Seq<FileDataV>,
    tree2: Seq<NodeV>,
    store2: Seq<FileDataV>,
    comps: Seq<Seq<char>>,
    b: Seq<u8>,
    now: u64,
)
    requires
        comps.len() >= 2,
        crate::node::entries_wf(dirs_entries(tree, comps.drop_last(), 0), store.len() as nat),
        dirs_ok(tree, comps.drop_last(), 0),
        write_matches(Ok(()), tree, store, tree2, store2, comps, b, now),
    ensures
        read_matches(Ok(b), tree2, store2, comps),
{
    let parent = comps.drop_last();
    let name = comps.last();
    lemma_dirs_ok_lookup(tree, parent, 0);
    let dnode = choose|n: NodeV| lookup_nf(tree, parent, 0) == (LookupNF::Found { node: n });
    assert(resolve_at(tree, parent, Seq::empty(), 1) == (ResolveSpec::Found {
        comps: parent,
        node: dnode,
    }));
    assert(resolves_to(tree, parent, ResolveSpec::Found { comps: parent, node: dnode }));
    let (pc, dn) = choose|pc: Seq<Seq<char>>, dn: NodeV|
        #[trigger] resolves_to(tree, parent, ResolveSpec::Found { comps: pc, node: dn })
            && dirs_ok(tree, pc, 0) && ({
            let p = dirs_entries(tree, pc, 0);
            let k = idx_of(p, name);
            if k != -1 {
                p[k] matches NodeV::File { file_id, .. } && (tree2 == tree && store2
                    == store.update(
                    file_id,
                    FileDataV {
                        data: b,
                        mode: store[file_id].mode,
                        created: store[file_id].created,
                        modified: now,
                    },
                ))
            } else {
                &&& tree2 == put_child(tree, pc, 0, NodeV::File { name, file_id: store.len() as int })
                &&& store2 == store.push(
                    FileDataV { data: b, mode: 0o666, created: now, modified: now },
                )
            }
        });
    crate::lookup::lemma_resolve_det(
        tree,
        parent,
        ResolveSpec::Found { comps: parent, node: dnode },
        ResolveSpec::Found { comps: pc, node: dn },
    );
    assert(pc == parent);
    let p = dirs_entries(tree, parent, 0);
    let k = idx_of(p, name);
    if k != -1 {
        lemma_idx_of(p, name);
        let fid = choose|fid: int| p[k] == (NodeV::File { name, file_id: fid });
        assert(crate::node::nv_wf(p[k], store.len() as nat));
        assert(0 <= fid < store.len());
        assert(store2 == store.update(
            fid,
            FileDataV {
                data: b,
                mode: store[fid].mode,
                created: store[fid].created,
                modified: now,
            },
        ));
        assert(nv_name(p[k]) == name);
        assert(p[k] == (NodeV::File { name, file_id: fid }));
        assert(tree2 == tree);
        assert(crate::sys::file_at(tree2, parent, parent, name, fid));
        assert(store2[fid].data == b);
        assert(read_matches(Ok(b), tree2, store2, comps));
    } else {
        let fid = store.len() as int;
        let n = NodeV::File { name, file_id: fid };
        lemma_put_child_props(tree, parent, 0, n);
        assert(dirs_ok(tree2, parent, 0));
        assert(dirs_entries(tree2, parent, 0) == child_slot(p, n));
        lemma_child_slot_found(p, n);
        lemma_dirs_ok_lookup(tree2, parent, 0);
        let dnode2 = choose|n: NodeV| lookup_nf(tree2, parent, 0) == (LookupNF::Found { node: n });
        assert(resolve_at(tree2, parent, Seq::empty(), 1) == (ResolveSpec::Found {
            comps: parent,
            node: dnode2,
        }));
        assert(resolves_to(tree2, parent, ResolveSpec::Found { comps: parent, node: dnode2 }));
        let p2 = dirs_entries(tree2, parent, 0);
        let k2 = idx_of(p2, name);
        lemma_idx_of(p2, name);
        assert(p2[k2] == n);
        assert(crate::sys::file_at(tree2, parent, parent, name, fid));
        assert(store2[fid].data == b);
        assert(read_matches(Ok(b), tree2, store2, comps));
    }
}

/// After making every directory of an unblocked path, each prefix of that
/// path names a directory: the walk of any prefix finds a directory node.
pub proof fn lemma_create_dir_all_prefixes(
    tree: Seq<NodeV>,
    c: Seq<Seq<char>>,
    now: u64,
    j: int,
)
    requires
        !crate::edit::dirs_blocked(tree, c, 0),
        0 < j <= c.len(),
    ensures
        lookup_nf(with_dirs(tree, c, 0, now), c.take(j), 0) matches LookupNF::Found { node }
            && node matches NodeV::Dir { .. },
{
    lemma_with_dirs_ok(tree, c, 0, now);
    lemma_dirs_ok_prefix(with_dirs(tree, c, 0, now), c, 0, j);
    assert(c.take(j).len() == j);
    assert forall|m: int| 0 <= m < j implies #[trigger] c.take(j)[m] == c[m] by {}
    lemma_dirs_ok_lookup(with_dirs(tree, c, 0, now), c.take(j), 0);
}

/// A walkable component list has every prefix walkable.
pub proof fn lemma_dirs_ok_prefix(es: Seq<NodeV>, comps: Seq<Seq<char>>, i: int, j: int)
    requires
        0 <= i,
        i <= j <= comps.len(),
        dirs_ok(es, comps, i),
    ensures
        dirs_ok(es, comps.take(j), i),
    decreases comps.len() - i,
{
    if i >= j {
        assert(i >= comps.take(j).len());
    } else {
        assert(comps.take(j)[i] == comps[i]);
        let k = idx_of(es, comps[i]);
        lemma_idx_of(es, comps[i]);
        match es[k] {
            NodeV::Dir { entries, .. } => {
                lemma_dirs_ok_prefix(entries, comps, i + 1, j);
                assert(comps.take(j) =~= comps.take(j));
            },
            _ => {},
        }
    }
}

/// Renaming a file onto an existing file in the same directory replaces the
/// content under the new name and removes the old name entirely.
pub proof fn lemma_rename_same_dir(p: Seq<NodeV>, fname: Seq<char>, tname: Seq<char>, fid: int)
    requires
        entries_sorted(p),
        fname != tname,
        idx_of(p, fname) != -1,
        p[idx_of(p, fname)] == (NodeV::File { name: fname, file_id: fid }),
    ensures
        ({
            let p2 = child_slot(
                p.remove(idx_of(p, fname)),
                NodeV::File { name: tname, file_id: fid },
            );
            &&& idx_of(p2, fname) == -1
            &&& idx_of(p2, tname) != -1
            &&& p2[idx_of(p2, tname)] == (NodeV::File { name: tname, file_id: fid })
        }),
{
    let k = idx_of(p, fname);
    lemma_idx_of(p, fname);
    let p1 = p.remove(k);
    crate::node::lemma_remove_sorted(p, k);
    lemma_remove_gone(p, fname);
    let n = NodeV::File { name: tname, file_id: fid };
    lemma_child_slot_found(p1, n);
    let p2 = child_slot(p1, n);
    assert(idx_of(p2, fname) == idx_of(p1, fname) || idx_of(p2, fname) == -1);
    assert(idx_of(p1, fname) == -1);
    lemma_idx_of(p2, fname);
    lemma_idx_of(p1, fname);
}

/// Composing two child-list replacements at the same path keeps only the
/// last one, and replacing a child list with what it already holds is the
/// identity.
pub proof fn lemma_set_dirs_compose(
    es: Seq<NodeV>,
    comps: Seq<Seq<char>>,
    i: int,
    q: Seq<NodeV>,
    p: Seq<NodeV>,
)
    requires
        dirs_ok(es, comps, i),
    ensures
        crate::edit::set_dirs_at(
            crate::edit::set_dirs_at(es, comps, i, q),
            comps,
            i,
            p,
        ) == crate::edit::set_dirs_at(es, comps, i, p),
        p == dirs_entries(es, comps, i) ==> crate::edit::set_dirs_at(es, comps, i, p) == es,
    decreases comps.len() - i,
{
    if i >= comps.len() {
    } else {
        let k = idx_of(es, comps[i]);
        lemma_idx_of(es, comps[i]);
        match es[k] {
            NodeV::Dir { name, created, modified, entries } => {
                lemma_set_dirs_compose(entries, comps, i + 1, q, p);
                let e1 = crate::edit::set_dirs_at(es, comps, i, q);
                assert forall|j: int| 0 <= j < k implies nv_name(#[trigger] e1[j]) != comps[i] by {
                    assert(e1[j] == es[j]);
                }
                assert(nv_name(e1[k]) == comps[i]);
                lemma_idx_of_first(e1, comps[i], k);
                assert(crate::edit::set_dirs_at(e1, comps, i, p) =~= crate::edit::set_dirs_at(
                    es,
                    comps,
                    i,
                    p,
                ));
                if p == dirs_entries(es, comps, i) {
                    assert(crate::edit::set_dirs_at(es, comps, i, p) =~= es);
                }
            },
            _ => {},
        }
    }
}

/// Renaming onto an existing directory fails, and the failure is externally
/// a no-op: the detached source entry goes straight back, restoring the
/// tree exactly.
pub proof fn lemma_rename_onto_dir_noop(
    tree: Seq<NodeV>,
    tree2: Seq<NodeV>,
    fpc: Seq<Seq<char>>,
    fname: Seq<char>,
    fid: int,
)
    requires
        dirs_ok(tree, fpc, 0),
        entries_sorted(dirs_entries(tree, fpc, 0)),
        idx_of(dirs_entries(tree, fpc, 0), fname) != -1,
        dirs_entries(tree, fpc, 0)[idx_of(dirs_entries(tree, fpc, 0), fname)] == (NodeV::File {
            name: fname,
            file_id: fid,
        }),
        tree2 == put_child(
            remove_child(tree, fpc, 0, fname),
            fpc,
            0,
            NodeV::File { name: fname, file_id: fid },
        ),
    ensures
        tree2 == tree,
{
    let p = dirs_entries(tree, fpc, 0);
    let k = idx_of(p, fname);
    lemma_idx_of(p, fname);
    crate::edit::lemma_remove_child_props(tree, fpc, 0, fname);
    let t1 = remove_child(tree, fpc, 0, fname);
    assert(t1 == crate::edit::set_dirs_at(tree, fpc, 0, p.remove(k)));
    assert(dirs_entries(t1, fpc, 0) == p.remove(k));
    lemma_restore_id(p, k);
    assert(child_slot(p.remove(k), NodeV::File { name: fname, file_id: fid }) == p);
    assert(tree2 == crate::edit::set_dirs_at(t1, fpc, 0, p));
    lemma_set_dirs_compose(tree, fpc, 0, p.remove(k), p);
    assert(crate::edit::set_dirs_at(t1, fpc, 0, p) == crate::edit::set_dirs_at(tree, fpc, 0, p));
    assert(crate::edit::set_dirs_at(tree, fpc, 0, p) == tree);
}


/// A path that meets one symlink resolves through it: when the walk stops
/// at a symlink whose folded target settles directly — at a real node or at
/// nothing — the whole path resolves to that outcome. In particular, a link
/// whose chain ends at a real file resolves to that file, and reading the
/// resolved path reads that file's content.
pub proof fn lemma_single_link_resolution(
    es: Seq<NodeV>,
    comps: Seq<Seq<char>>,
    depth: int,
    target: Seq<char>,
)
    requires
        comps.len() > 0,
        lookup_nf(es, comps, 0) matches LookupNF::Link { depth: d, target: t, .. } && d == depth
            && t == target,
        crate::lookup::link_next(comps.take(depth), target).len() > 0,
        crate::lookup::path_str_of_comps(crate::lookup::link_next(comps.take(depth), target))
            != crate::lookup::path_str_of_comps(comps.take(depth)),
        !(lookup_nf(es, crate::lookup::link_next(comps.take(depth), target), 0)
            matches LookupNF::Link { .. }),
    ensures
        ({
            let tgt = crate::lookup::link_next(comps.take(depth), target);
            match lookup_nf(es, tgt, 0) {
                LookupNF::Found { node } => resolves_to(
                    es,
                    comps,
                    ResolveSpec::Found { comps: tgt, node },
                ),
                LookupNF::NotFound => resolves_to(es, comps, ResolveSpec::NotFound { comps: tgt }),
                LookupNF::IntoFile => resolves_to(es, comps, ResolveSpec::IntoFile),
                LookupNF::Link { .. } => true,
            }
        }),
{
    let cur = comps.take(depth);
    let cur_str = crate::lookup::path_str_of_comps(cur);
    let tgt = crate::lookup::link_next(cur, target);
    let tgt_str = crate::lookup::path_str_of_comps(tgt);
    let seen0 = Seq::<Seq<char>>::empty();
    let seen1 = seen0.push(cur_str);
    assert(seen1.len() == 1);
    assert(seen1[0] == cur_str);
    assert(!seen1.contains(tgt_str)) by {
        if seen1.contains(tgt_str) {
            let i = choose|i: int| 0 <= i < seen1.len() && seen1[i] == tgt_str;
            assert(seen1[i] == cur_str);
        }
    }
    assert(resolve_at(es, comps, seen0, 2) == resolve_at(es, tgt, seen1.push(tgt_str), 1));
    match lookup_nf(es, tgt, 0) {
        LookupNF::Found { node } => {
            assert(resolve_at(es, tgt, seen1.push(tgt_str), 1) == (ResolveSpec::Found {
                comps: tgt,
                node,
            }));
        },
        LookupNF::NotFound => {
            assert(resolve_at(es, tgt, seen1.push(tgt_str), 1) == (ResolveSpec::NotFound {
                comps: tgt,
            }));
        },
        LookupNF::IntoFile => {
            assert(resolve_at(es, tgt, seen1.push(tgt_str), 1) == ResolveSpec::IntoFile);
        },
        LookupNF::Link { .. } => {},
    }
}


/// Two entries of one list never contribute the same store slot when every
/// slot is pointed at by at most one file node.
proof fn lemma_two_entries_distinct_ids(p: Seq<NodeV>, i: int, j: int, fid: int)
    requires
        0 <= i < j < p.len(),
        crate::node::node_id_count(p[i], fid) >= 1,
        crate::node::node_id_count(p[j], fid) >= 1,
    ensures
        crate::node::id_count(p, fid) >= 2,
{
    crate::node::lemma_id_count_at(p, i, fid);
    let rest = p.skip(i + 1);
    assert(rest[j - i - 1] == p[j]);
    crate::node::lemma_id_count_at(rest, j - i - 1, fid);
}

/// Files never share storage: two files under different names in one
/// directory sit in different store slots. In particular, after a hard link
/// lands its copy beside an existing file, writing through either path
/// leaves the other file's bytes unchanged — the emulation's documented
/// copy-on-link behavior.
pub proof fn lemma_files_never_share(
    tree: Seq<NodeV>,
    pc: Seq<Seq<char>>,
    fname: Seq<char>,
    tname: Seq<char>,
    fid1: int,
    fid2: int,
)
    requires
        crate::node::ids_unique(tree),
        dirs_ok(tree, pc, 0),
        fname != tname,
        idx_of(dirs_entries(tree, pc, 0), fname) != -1,
        dirs_entries(tree, pc, 0)[idx_of(dirs_entries(tree, pc, 0), fname)] == (NodeV::File {
            name: fname,
            file_id: fid1,
        }),
        idx_of(dirs_entries(tree, pc, 0), tname) != -1,
        dirs_entries(tree, pc, 0)[idx_of(dirs_entries(tree, pc, 0), tname)] == (NodeV::File {
            name: tname,
            file_id: fid2,
        }),
    ensures
        fid1 != fid2,
{
    let p = dirs_entries(tree, pc, 0);
    let i = idx_of(p, fname);
    let j = idx_of(p, tname);
    lemma_idx_of(p, fname);
    lemma_idx_of(p, tname);
    assert(i != j);
    if fid1 == fid2 {
        crate::edit::lemma_dirs_entries_id_le(tree, pc, 0, fid1);
        if i < j {
            lemma_two_entries_distinct_ids(p, i, j, fid1);
        } else {
            lemma_two_entries_distinct_ids(p, j, i, fid1);
        }
        assert(crate::node::id_count(tree, fid1) >= 2);
        assert(false);
    }
}


/// Renaming a file within one plainly reachable directory cannot fail, and
/// does what the rename contract's success case says: the destination name
/// holds the source's file — replacing any file that held the name — the
/// source name is gone, and reading the destination path yields the file's
/// bytes. `r` is any answer the rename contract admits on these inputs.
pub proof fn lemma_rename_forced(
    r: Result<(), FsError>,
    tree: Seq<NodeV>,
    store: Seq<FileDataV>,
    tree2: Seq<NodeV>,
    fcomps: Seq<Seq<char>>,
    tcomps: Seq<Seq<char>>,
    now: u64,
    fid: int,
)
    requires
        fcomps.len() >= 2,
        tcomps.len() >= 2,
        fcomps.drop_last() == tcomps.drop_last(),
        fcomps.last() != tcomps.last(),
        lookup_nf(tree, fcomps.drop_last(), 0) matches LookupNF::Found { node }
            && node matches NodeV::Dir { .. },
        crate::node::entries_wf(
            dirs_entries(tree, fcomps.drop_last(), 0),
            store.len() as nat,
        ),
        idx_of(dirs_entries(tree, fcomps.drop_last(), 0), fcomps.last()) != -1,
        dirs_entries(tree, fcomps.drop_last(), 0)[idx_of(
            dirs_entries(tree, fcomps.drop_last(), 0),
            fcomps.last(),
        )] == (NodeV::File { name: fcomps.last(), file_id: fid }),
        ({
            let p = dirs_entries(tree, fcomps.drop_last(), 0);
            let kt = idx_of(p, tcomps.last());
            kt != -1 ==> p[kt] matches NodeV::File { .. }
        }),
        0 <= fid < store.len(),
        rename_matches(r, tree, tree2, fcomps, tcomps, now),
    ensures
        r is Ok,
        dirs_ok(tree2, fcomps.drop_last(), 0),
        idx_of(dirs_entries(tree2, fcomps.drop_last(), 0), fcomps.last()) == -1,
        ({
            let p2 = dirs_entries(tree2, tcomps.drop_last(), 0);
            let kt = idx_of(p2, tcomps.last());
            kt != -1 && p2[kt] == (NodeV::File { name: tcomps.last(), file_id: fid })
        }),
        read_matches(Ok(store[fid].data), tree2, store, tcomps),
{
    let parent = fcomps.drop_last();
    let fname = fcomps.last();
    let tname = tcomps.last();
    let p = dirs_entries(tree, parent, 0);
    let k = idx_of(p, fname);
    lemma_idx_of(p, fname);
    crate::edit::lemma_lookup_found_dir(tree, parent, 0);
    let dnode = choose|n: NodeV| lookup_nf(tree, parent, 0) == (LookupNF::Found { node: n });
    assert(resolve_at(tree, parent, Seq::empty(), 1) == (ResolveSpec::Found {
        comps: parent,
        node: dnode,
    }));
    assert(resolves_to(tree, parent, ResolveSpec::Found { comps: parent, node: dnode }));
    // the detached tree: the same directory chain with the source removed
    let t1 = remove_child(tree, parent, 0, fname);
    crate::edit::lemma_remove_child_props(tree, parent, 0, fname);
    crate::node::lemma_remove_sorted(p, k);
    lemma_remove_gone(p, fname);
    assert(dirs_entries(t1, parent, 0) == p.remove(k));
    lemma_dirs_ok_lookup(t1, parent, 0);
    let dnode1 = choose|n: NodeV| lookup_nf(t1, parent, 0) == (LookupNF::Found { node: n });
    assert(resolve_at(t1, parent, Seq::empty(), 1) == (ResolveSpec::Found {
        comps: parent,
        node: dnode1,
    }));
    assert(resolves_to(t1, parent, ResolveSpec::Found { comps: parent, node: dnode1 }));
    match r {
        Ok(()) => {},
        Err(FsError::NotFound) => {
            if exists|c: Seq<Seq<char>>|
                resolves_to(tree, parent, ResolveSpec::NotFound { comps: c }) {
                let c = choose|c: Seq<Seq<char>>|
                    resolves_to(tree, parent, ResolveSpec::NotFound { comps: c });
                crate::lookup::lemma_resolve_det(
                    tree,
                    parent,
                    ResolveSpec::Found { comps: parent, node: dnode },
                    ResolveSpec::NotFound { comps: c },
                );
                assert(false);
            } else {
                let (pc, dn) = choose|pc: Seq<Seq<char>>, dn: NodeV|
                    #[trigger] resolves_to(tree, parent, ResolveSpec::Found { comps: pc, node: dn })
                        && dirs_ok(tree, pc, 0) && idx_of(dirs_entries(tree, pc, 0), fname) == -1;
                crate::lookup::lemma_resolve_det(
                    tree,
                    parent,
                    ResolveSpec::Found { comps: parent, node: dnode },
                    ResolveSpec::Found { comps: pc, node: dn },
                );
                assert(pc == parent);
                assert(false);
            }
            assert(false);
        },
        Err(FsError::NotAFile) => {
            let (pc, dn) = choose|pc: Seq<Seq<char>>, dn: NodeV|
                #[trigger] resolves_to(tree, parent, ResolveSpec::Found { comps: pc, node: dn })
                    && dirs_ok(tree, pc, 0) && idx_of(dirs_entries(tree, pc, 0), fname) != -1 && !(
                dirs_entries(tree, pc, 0)[idx_of(dirs_entries(tree, pc, 0), fname)]
                    matches NodeV::File { .. });
            crate::lookup::lemma_resolve_det(
                tree,
                parent,
                ResolveSpec::Found { comps: parent, node: dnode },
                ResolveSpec::Found { comps: pc, node: dn },
            );
            assert(false);
        },
        Err(FsError::RenameOntoDirectory) => {
            let (fpc, tpc, fid2) = choose|fpc: Seq<Seq<char>>, tpc: Seq<Seq<char>>, fid2: int|
                {
                    &&& #[trigger] crate::sys::file_at(tree, parent, fpc, fname, fid2)
                    &&& #[trigger] crate::sys::resolved_target(
                        remove_child(tree, fpc, 0, fname),
                        tcomps.drop_last(),
                        tpc,
                    )
                    &&& crate::sys::dest_is_dir_spec(remove_child(tree, fpc, 0, fname), tpc, tname)
                    &&& tree2 == put_child(
                        remove_child(tree, fpc, 0, fname),
                        fpc,
                        0,
                        NodeV::File { name: fname, file_id: fid2 },
                    )
                };
            let dn0 = choose|dn: NodeV|
                #[trigger] resolves_to(tree, parent, ResolveSpec::Found { comps: fpc, node: dn });
            crate::lookup::lemma_resolve_det(
                tree,
                parent,
                ResolveSpec::Found { comps: parent, node: dnode },
                ResolveSpec::Found { comps: fpc, node: dn0 },
            );
            assert(fpc == parent);
            if resolves_to(t1, parent, ResolveSpec::NotFound { comps: tpc }) {
                crate::lookup::lemma_resolve_det(
                    t1,
                    parent,
                    ResolveSpec::Found { comps: parent, node: dnode1 },
                    ResolveSpec::NotFound { comps: tpc },
                );
            }
            let dn1 = choose|dn: NodeV|
                #[trigger] resolves_to(t1, parent, ResolveSpec::Found { comps: tpc, node: dn });
            crate::lookup::lemma_resolve_det(
                t1,
                parent,
                ResolveSpec::Found { comps: parent, node: dnode1 },
                ResolveSpec::Found { comps: tpc, node: dn1 },
            );
            assert(tpc == parent);
            let kt1 = idx_of(p.remove(k), tname);
            lemma_idx_of(p.remove(k), tname);
            let kt = idx_of(p, tname);
            lemma_idx_of(p, tname);
            assert(false);
        },
        Err(FsError::LeadsIntoFile) => {
            if resolves_to(tree, parent, ResolveSpec::IntoFile) {
                crate::lookup::lemma_resolve_det(
                    tree,
                    parent,
                    ResolveSpec::Found { comps: parent, node: dnode },
                    ResolveSpec::IntoFile,
                );
            } else if exists|pc: Seq<Seq<char>>, dn: NodeV|
                #[trigger] resolves_to(tree, parent, ResolveSpec::Found { comps: pc, node: dn })
                    && !dirs_ok(tree, pc, 0) {
                let (pc, dn) = choose|pc: Seq<Seq<char>>, dn: NodeV|
                    #[trigger] resolves_to(
                        tree,
                        parent,
                        ResolveSpec::Found { comps: pc, node: dn },
                    ) && !dirs_ok(tree, pc, 0);
                crate::lookup::lemma_resolve_det(
                    tree,
                    parent,
                    ResolveSpec::Found { comps: parent, node: dnode },
                    ResolveSpec::Found { comps: pc, node: dn },
                );
            } else {
                let (fpc, fid2) = choose|fpc: Seq<Seq<char>>, fid2: int|
                    {
                        &&& #[trigger] crate::sys::file_at(tree, parent, fpc, fname, fid2)
                        &&& (crate::sys::resolve_errs(
                            remove_child(tree, fpc, 0, fname),
                            tcomps.drop_last(),
                            FsError::LeadsIntoFile,
                        ) || exists|tpc: Seq<Seq<char>>|
                            #[trigger] crate::sys::resolved_target(
                                remove_child(tree, fpc, 0, fname),
                                tcomps.drop_last(),
                                tpc,
                            ) && crate::edit::dirs_blocked(
                                remove_child(tree, fpc, 0, fname),
                                tpc,
                                0,
                            ))
                        &&& tree2 == put_child(
                            remove_child(tree, fpc, 0, fname),
                            fpc,
                            0,
                            NodeV::File { name: fname, file_id: fid2 },
                        )
                    };
                let dn0 = choose|dn: NodeV|
                    #[trigger] resolves_to(
                        tree,
                        parent,
                        ResolveSpec::Found { comps: fpc, node: dn },
                    );
                crate::lookup::lemma_resolve_det(
                    tree,
                    parent,
                    ResolveSpec::Found { comps: parent, node: dnode },
                    ResolveSpec::Found { comps: fpc, node: dn0 },
                );
                assert(fpc == parent);
                if crate::sys::resolve_errs(t1, parent, FsError::LeadsIntoFile) {
                    crate::lookup::lemma_resolve_det(
                        t1,
                        parent,
                        ResolveSpec::Found { comps: parent, node: dnode1 },
                        ResolveSpec::IntoFile,
                    );
                } else {
                    let tpc = choose|tpc: Seq<Seq<char>>|
                        #[trigger] crate::sys::resolved_target(t1, parent, tpc)
                            && crate::edit::dirs_blocked(t1, tpc, 0);
                    if resolves_to(t1, parent, ResolveSpec::NotFound { comps: tpc }) {
                        crate::lookup::lemma_resolve_det(
                            t1,
                            parent,
                            ResolveSpec::Found { comps: parent, node: dnode1 },
                            ResolveSpec::NotFound { comps: tpc },
                        );
                    }
                    let dn1 = choose|dn: NodeV|
                        #[trigger] resolves_to(
                            t1,
                            parent,
                            ResolveSpec::Found { comps: tpc, node: dn },
                        );
                    crate::lookup::lemma_resolve_det(
                        t1,
                        parent,
                        ResolveSpec::Found { comps: parent, node: dnode1 },
                        ResolveSpec::Found { comps: tpc, node: dn1 },
                    );
                    assert(tpc == parent);
                    crate::edit::lemma_dirs_ok_not_blocked(t1, parent, 0);
                }
            }
            assert(false);
        },
        Err(e) => {
            assert(!(e == FsError::NotFound || e == FsError::NotAFile || e
                == FsError::RenameOntoDirectory || e == FsError::LeadsIntoFile));
            lemma_resolve_errs_refuted(tree, parent, dnode, e);
            let (fpc, fid2) = choose|fpc: Seq<Seq<char>>, fid2: int|
                {
                    &&& #[trigger] crate::sys::file_at(tree, parent, fpc, fname, fid2)
                    &&& crate::sys::resolve_errs(remove_child(tree, fpc, 0, fname), tcomps.drop_last(), e)
                    &&& tree2 == put_child(
                        remove_child(tree, fpc, 0, fname),
                        fpc,
                        0,
                        NodeV::File { name: fname, file_id: fid2 },
                    )
                };
            let dn0 = choose|dn: NodeV|
                #[trigger] resolves_to(tree, parent, ResolveSpec::Found { comps: fpc, node: dn });
            crate::lookup::lemma_resolve_det(
                tree,
                parent,
                ResolveSpec::Found { comps: parent, node: dnode },
                ResolveSpec::Found { comps: fpc, node: dn0 },
            );
            assert(fpc == parent);
            lemma_resolve_errs_refuted(t1, parent, dnode1, e);
            assert(false);
        },
    }
    // success: with the canonical paths pinned, the effect is the same-name
    // replacement in one directory
    let (fpc, tpc, fid2) = choose|fpc: Seq<Seq<char>>, tpc: Seq<Seq<char>>, fid2: int|
        {
            &&& #[trigger] crate::sys::file_at(tree, parent, fpc, fname, fid2)
            &&& #[trigger] crate::sys::resolved_target(
                remove_child(tree, fpc, 0, fname),
                tcomps.drop_last(),
                tpc,
            )
            &&& !crate::edit::dirs_blocked(remove_child(tree, fpc, 0, fname), tpc, 0)
            &&& !crate::sys::dest_is_dir_spec(remove_child(tree, fpc, 0, fname), tpc, tname)
            &&& tree2 == put_child(
                with_dirs(remove_child(tree, fpc, 0, fname), tpc, 0, now),
                tpc,
                0,
                NodeV::File { name: tname, file_id: fid2 },
            )
        };
    let dn0 = choose|dn: NodeV|
        #[trigger] resolves_to(tree, parent, ResolveSpec::Found { comps: fpc, node: dn });
    crate::lookup::lemma_resolve_det(
        tree,
        parent,
        ResolveSpec::Found { comps: parent, node: dnode },
        ResolveSpec::Found { comps: fpc, node: dn0 },
    );
    assert(fpc == parent);
    assert(fid2 == fid);
    if resolves_to(t1, parent, ResolveSpec::NotFound { comps: tpc }) {
        crate::lookup::lemma_resolve_det(
            t1,
            parent,
            ResolveSpec::Found { comps: parent, node: dnode1 },
            ResolveSpec::NotFound { comps: tpc },
        );
    }
    let dn1 = choose|dn: NodeV|
        #[trigger] resolves_to(t1, parent, ResolveSpec::Found { comps: tpc, node: dn });
    crate::lookup::lemma_resolve_det(
        t1,
        parent,
        ResolveSpec::Found { comps: parent, node: dnode1 },
        ResolveSpec::Found { comps: tpc, node: dn1 },
    );
    assert(tpc == parent);
    lemma_set_dirs_compose(t1, parent, 0, p.remove(k), p.remove(k));
    crate::edit::lemma_with_dirs_noop(t1, parent, 0, now);
    assert(tree2 == put_child(t1, parent, 0, NodeV::File { name: tname, file_id: fid }));
    let n = NodeV::File { name: tname, file_id: fid };
    lemma_put_child_props(t1, parent, 0, n);
    assert(dirs_entries(tree2, parent, 0) == child_slot(p.remove(k), n));
    lemma_rename_same_dir(p, fname, tname, fid);
    // the destination path now reads the file's bytes
    lemma_dirs_ok_lookup(tree2, parent, 0);
    let dnode2 = choose|nn: NodeV| lookup_nf(tree2, parent, 0) == (LookupNF::Found { node: nn });
    assert(resolve_at(tree2, parent, Seq::empty(), 1) == (ResolveSpec::Found {
        comps: parent,
        node: dnode2,
    }));
    assert(resolves_to(tree2, parent, ResolveSpec::Found { comps: parent, node: dnode2 }));
    let p2 = dirs_entries(tree2, parent, 0);
    let kt2 = idx_of(p2, tname);
    lemma_idx_of(p2, tname);
    assert(crate::sys::file_at(tree2, tcomps.drop_last(), parent, tname, fid));
    assert(read_matches(Ok(store[fid].data), tree2, store, tcomps));
}

/// On a directly reachable path, no resolution failure is possible: the walk
/// settles immediately, so a loop, an empty path, a blocked walk, or the
/// hop bound cannot be its answer.
proof fn lemma_resolve_errs_refuted(
    tree: Seq<NodeV>,
    parent: Seq<Seq<char>>,
    dnode: NodeV,
    e: FsError,
)
    requires
        parent.len() > 0,
        lookup_nf(tree, parent, 0) == (LookupNF::Found { node: dnode }),
    ensures
        !crate::sys::resolve_errs(tree, parent, e),
{
    let direct = ResolveSpec::Found { comps: parent, node: dnode };
    assert(resolve_at(tree, parent, Seq::empty(), 1) == direct);
    assert(resolves_to(tree, parent, direct));
    if crate::sys::resolve_errs(tree, parent, e) {
        match e {
            FsError::EmptyPath => {
                crate::lookup::lemma_resolve_det(tree, parent, direct, ResolveSpec::Empty);
            },
            FsError::LeadsIntoFile => {
                crate::lookup::lemma_resolve_det(tree, parent, direct, ResolveSpec::IntoFile);
            },
            FsError::SymlinkLoop => {
                if resolves_to(tree, parent, ResolveSpec::Loop) {
                    crate::lookup::lemma_resolve_det(tree, parent, direct, ResolveSpec::Loop);
                } else {
                    crate::lookup::lemma_resolve_settled(
                        tree,
                        parent,
                        Seq::empty(),
                        1,
                        usize::MAX as nat,
                    );
                }
            },
            _ => {},
        }
    }
}


/// A walk that settles on a found node rules out every resolution failure.
proof fn lemma_found_refutes_errs(
    tree: Seq<NodeV>,
    comps: Seq<Seq<char>>,
    c: Seq<Seq<char>>,
    dn: NodeV,
    e: FsError,
)
    requires
        resolves_to(tree, comps, ResolveSpec::Found { comps: c, node: dn }),
    ensures
        !crate::sys::resolve_errs(tree, comps, e),
{
    let found = ResolveSpec::Found { comps: c, node: dn };
    if crate::sys::resolve_errs(tree, comps, e) {
        match e {
            FsError::EmptyPath => {
                crate::lookup::lemma_resolve_det(tree, comps, found, ResolveSpec::Empty);
            },
            FsError::LeadsIntoFile => {
                crate::lookup::lemma_resolve_det(tree, comps, found, ResolveSpec::IntoFile);
            },
            FsError::SymlinkLoop => {
                if resolves_to(tree, comps, ResolveSpec::Loop) {
                    crate::lookup::lemma_resolve_det(tree, comps, found, ResolveSpec::Loop);
                } else {
                    crate::lookup::lemma_settled_not_out(tree, comps, found);
                }
            },
            _ => {},
        }
    }
}

/// Reading through symlinks: when the path's parent chain — however many
/// links it crosses — settles at a real directory that holds the file, a
/// whole-file read yields exactly that file's bytes. `r` is any answer the
/// read contract admits on these inputs.
pub proof fn lemma_read_through_links(
    r: Result<Seq<u8>, FsError>,
    tree: Seq<NodeV>,
    store: Seq<FileDataV>,
    comps: Seq<Seq<char>>,
    pc: Seq<Seq<char>>,
    dn: NodeV,
    fid: int,
)
    requires
        comps.len() >= 2,
        resolves_to(tree, comps.drop_last(), ResolveSpec::Found { comps: pc, node: dn }),
        dirs_ok(tree, pc, 0),
        idx_of(dirs_entries(tree, pc, 0), comps.last()) != -1,
        dirs_entries(tree, pc, 0)[idx_of(dirs_entries(tree, pc, 0), comps.last())] == (
        NodeV::File { name: comps.last(), file_id: fid }),
        0 <= fid < store.len(),
        read_matches(r, tree, store, comps),
    ensures
        r == Ok::<Seq<u8>, FsError>(store[fid].data),
{
    let parent = comps.drop_last();
    let name = comps.last();
    let found = ResolveSpec::Found { comps: pc, node: dn };
    let p = dirs_entries(tree, pc, 0);
    lemma_idx_of(p, name);
    match r {
        Ok(v) => {
            let (pc2, fid2) = choose|pc2: Seq<Seq<char>>, fid2: int|
                #[trigger] crate::sys::file_at(tree, parent, pc2, name, fid2) && 0 <= fid2
                    < store.len() && v == store[fid2].data;
            let dn2 = choose|dn2: NodeV|
                #[trigger] resolves_to(
                    tree,
                    parent,
                    ResolveSpec::Found { comps: pc2, node: dn2 },
                );
            crate::lookup::lemma_resolve_det(
                tree,
                parent,
                found,
                ResolveSpec::Found { comps: pc2, node: dn2 },
            );
            assert(pc2 == pc);
            assert(fid2 == fid);
        },
        Err(FsError::NotAFile) => {
            let (pc2, dn2) = choose|pc2: Seq<Seq<char>>, dn2: NodeV|
                #[trigger] resolves_to(tree, parent, ResolveSpec::Found { comps: pc2, node: dn2 })
                    && dirs_ok(tree, pc2, 0) && idx_of(dirs_entries(tree, pc2, 0), name) != -1
                    && !(dirs_entries(tree, pc2, 0)[idx_of(dirs_entries(tree, pc2, 0), name)]
                    matches NodeV::File { .. });
            crate::lookup::lemma_resolve_det(
                tree,
                parent,
                found,
                ResolveSpec::Found { comps: pc2, node: dn2 },
            );
            assert(false);
        },
        Err(FsError::NotFound) => {
            if exists|c: Seq<Seq<char>>|
                resolves_to(tree, parent, ResolveSpec::NotFound { comps: c }) {
                let c = choose|c: Seq<Seq<char>>|
                    resolves_to(tree, parent, ResolveSpec::NotFound { comps: c });
                crate::lookup::lemma_resolve_det(
                    tree,
                    parent,
                    found,
                    ResolveSpec::NotFound { comps: c },
                );
            } else {
                let (pc2, dn2) = choose|pc2: Seq<Seq<char>>, dn2: NodeV|
                    #[trigger] resolves_to(
                        tree,
                        parent,
                        ResolveSpec::Found { comps: pc2, node: dn2 },
                    ) && dirs_ok(tree, pc2, 0) && idx_of(dirs_entries(tree, pc2, 0), name) == -1;
                crate::lookup::lemma_resolve_det(
                    tree,
                    parent,
                    found,
                    ResolveSpec::Found { comps: pc2, node: dn2 },
                );
            }
            assert(false);
        },
        Err(FsError::LeadsIntoFile) => {
            if resolves_to(tree, parent, ResolveSpec::IntoFile) {
                crate::lookup::lemma_resolve_det(tree, parent, found, ResolveSpec::IntoFile);
            } else {
                let (pc2, dn2) = choose|pc2: Seq<Seq<char>>, dn2: NodeV|
                    #[trigger] resolves_to(
                        tree,
                        parent,
                        ResolveSpec::Found { comps: pc2, node: dn2 },
                    ) && !dirs_ok(tree, pc2, 0);
                crate::lookup::lemma_resolve_det(
                    tree,
                    parent,
                    found,
                    ResolveSpec::Found { comps: pc2, node: dn2 },
                );
            }
            assert(false);
        },
        Err(e) => {
            lemma_found_refutes_errs(tree, parent, pc, dn, e);
            assert(false);
        },
    }
}

/// A cycle fails the read: when the path's parent chain revisits a path
/// instead of settling, a whole-file read reports exactly the symlink-loop
/// error. `r` is any answer the read contract admits on these inputs.
pub proof fn lemma_read_on_loop(
    r: Result<Seq<u8>, FsError>,
    tree: Seq<NodeV>,
    store: Seq<FileDataV>,
    comps: Seq<Seq<char>>,
)
    requires
        comps.len() >= 2,
        resolves_to(tree, comps.drop_last(), ResolveSpec::Loop),
        read_matches(r, tree, store, comps),
    ensures
        r == Err::<Seq<u8>, FsError>(FsError::SymlinkLoop),
{
    let parent = comps.drop_last();
    let name = comps.last();
    match r {
        Ok(v) => {
            let (pc2, fid2) = choose|pc2: Seq<Seq<char>>, fid2: int|
                #[trigger] crate::sys::file_at(tree, parent, pc2, name, fid2) && 0 <= fid2
                    < store.len() && v == store[fid2].data;
            let dn2 = choose|dn2: NodeV|
                #[trigger] resolves_to(
                    tree,
                    parent,
                    ResolveSpec::Found { comps: pc2, node: dn2 },
                );
            crate::lookup::lemma_resolve_det(
                tree,
                parent,
                ResolveSpec::Loop,
                ResolveSpec::Found { comps: pc2, node: dn2 },
            );
            assert(false);
        },
        Err(FsError::SymlinkLoop) => {},
        Err(FsError::NotAFile) => {
            let (pc2, dn2) = choose|pc2: Seq<Seq<char>>, dn2: NodeV|
                #[trigger] resolves_to(tree, parent, ResolveSpec::Found { comps: pc2, node: dn2 })
                    && dirs_ok(tree, pc2, 0) && idx_of(dirs_entries(tree, pc2, 0), name) != -1
                    && !(dirs_entries(tree, pc2, 0)[idx_of(dirs_entries(tree, pc2, 0), name)]
                    matches NodeV::File { .. });
            crate::lookup::lemma_resolve_det(
                tree,
                parent,
                ResolveSpec::Loop,
                ResolveSpec::Found { comps: pc2, node: dn2 },
            );
            assert(false);
        },
        Err(FsError::NotFound) => {
            if exists|c: Seq<Seq<char>>|
                resolves_to(tree, parent, ResolveSpec::NotFound { comps: c }) {
                let c = choose|c: Seq<Seq<char>>|
                    resolves_to(tree, parent, ResolveSpec::NotFound { comps: c });
                crate::lookup::lemma_resolve_det(
                    tree,
                    parent,
                    ResolveSpec::Loop,
                    ResolveSpec::NotFound { comps: c },
                );
            } else {
                let (pc2, dn2) = choose|pc2: Seq<Seq<char>>, dn2: NodeV|
                    #[trigger] resolves_to(
                        tree,
                        parent,
                        ResolveSpec::Found { comps: pc2, node: dn2 },
                    ) && dirs_ok(tree, pc2, 0) && idx_of(dirs_entries(tree, pc2, 0), name) == -1;
                crate::lookup::lemma_resolve_det(
                    tree,
                    parent,
                    ResolveSpec::Loop,
                    ResolveSpec::Found { comps: pc2, node: dn2 },
                );
            }
            assert(false);
        },
        Err(FsError::LeadsIntoFile) => {
            if resolves_to(tree, parent, ResolveSpec::IntoFile) {
                crate::lookup::lemma_resolve_det(
                    tree,
                    parent,
                    ResolveSpec::Loop,
                    ResolveSpec::IntoFile,
                );
            } else {
                let (pc2, dn2) = choose|pc2: Seq<Seq<char>>, dn2: NodeV|
                    #[trigger] resolves_to(
                        tree,
                        parent,
                        ResolveSpec::Found { comps: pc2, node: dn2 },
                    ) && !dirs_ok(tree, pc2, 0);
                crate::lookup::lemma_resolve_det(
                    tree,
                    parent,
                    ResolveSpec::Loop,
                    ResolveSpec::Found { comps: pc2, node: dn2 },
                );
            }
            assert(false);
        },
        Err(e) => {
            if crate::sys::resolve_errs(tree, parent, e) {
                match e {
                    FsError::EmptyPath => {
                        crate::lookup::lemma_resolve_det(
                            tree,
                            parent,
                            ResolveSpec::Loop,
                            ResolveSpec::Empty,
                        );
                    },
                    _ => {},
                }
            }
            assert(false);
        },
    }
}


/// A settled walk — found or not-found — rules out every resolution
/// failure on the same start.
proof fn lemma_settled_refutes_errs(
    tree: Seq<NodeV>,
    comps: Seq<Seq<char>>,
    settled: ResolveSpec,
    e: FsError,
)
    requires
        resolves_to(tree, comps, settled),
        settled matches ResolveSpec::Found { .. } || settled matches ResolveSpec::NotFound { .. },
    ensures
        !crate::sys::resolve_errs(tree, comps, e),
{
    if crate::sys::resolve_errs(tree, comps, e) {
        match e {
            FsError::EmptyPath => {
                crate::lookup::lemma_resolve_det(tree, comps, settled, ResolveSpec::Empty);
            },
            FsError::LeadsIntoFile => {
                crate::lookup::lemma_resolve_det(tree, comps, settled, ResolveSpec::IntoFile);
            },
            FsError::SymlinkLoop => {
                if resolves_to(tree, comps, ResolveSpec::Loop) {
                    crate::lookup::lemma_resolve_det(tree, comps, settled, ResolveSpec::Loop);
                } else {
                    crate::lookup::lemma_settled_not_out(tree, comps, settled);
                }
            },
            _ => {},
        }
    }
}

/// A resolved target — found or not-found at `tpc` — rules out every
/// resolution failure on the same start.
proof fn lemma_target_refutes_errs(
    tree: Seq<NodeV>,
    comps: Seq<Seq<char>>,
    tpc: Seq<Seq<char>>,
    e: FsError,
)
    requires
        crate::sys::resolved_target(tree, comps, tpc),
    ensures
        !crate::sys::resolve_errs(tree, comps, e),
{
    if exists|dn: NodeV|
        resolves_to(tree, comps, ResolveSpec::Found { comps: tpc, node: dn }) {
        let dn = choose|dn: NodeV|
            resolves_to(tree, comps, ResolveSpec::Found { comps: tpc, node: dn });
        lemma_settled_refutes_errs(tree, comps, ResolveSpec::Found { comps: tpc, node: dn }, e);
    } else {
        lemma_settled_refutes_errs(tree, comps, ResolveSpec::NotFound { comps: tpc }, e);
    }
}

/// Pins the rename contract's destination against a given resolved target:
/// both resolve the same start on the detached tree, so they agree.
proof fn lemma_target_det(
    t1: Seq<NodeV>,
    tparent: Seq<Seq<char>>,
    tpc: Seq<Seq<char>>,
    tpc2: Seq<Seq<char>>,
)
    requires
        crate::sys::resolved_target(t1, tparent, tpc),
        crate::sys::resolved_target(t1, tparent, tpc2),
    ensures
        tpc2 == tpc,
{
    let r1 = if exists|dn: NodeV|
        resolves_to(t1, tparent, ResolveSpec::Found { comps: tpc, node: dn }) {
        let dn = choose|dn: NodeV|
            resolves_to(t1, tparent, ResolveSpec::Found { comps: tpc, node: dn });
        ResolveSpec::Found { comps: tpc, node: dn }
    } else {
        ResolveSpec::NotFound { comps: tpc }
    };
    let r2 = if exists|dn: NodeV|
        resolves_to(t1, tparent, ResolveSpec::Found { comps: tpc2, node: dn }) {
        let dn = choose|dn: NodeV|
            resolves_to(t1, tparent, ResolveSpec::Found { comps: tpc2, node: dn });
        ResolveSpec::Found { comps: tpc2, node: dn }
    } else {
        ResolveSpec::NotFound { comps: tpc2 }
    };
    crate::lookup::lemma_resolve_det(t1, tparent, r1, r2);
}

/// Renaming a file is never refused when the pieces are in place, whatever
/// directories are involved: the source parent resolves to a directory
/// holding the file, the destination parent resolves on the detached tree
/// with no file blocking it, and the destination name holds no directory.
/// `r` is any answer the rename contract admits; it must be success, with
/// the tree exactly the detach-create-put composition. The same-directory
/// reading of this — content replaced under the new name, old name gone,
/// destination readable — is digested by `lemma_rename_forced`.
pub proof fn lemma_rename_forced_any(
    r: Result<(), FsError>,
    tree: Seq<NodeV>,
    tree2: Seq<NodeV>,
    fcomps: Seq<Seq<char>>,
    tcomps: Seq<Seq<char>>,
    now: u64,
    fpc: Seq<Seq<char>>,
    fdn: NodeV,
    tpc: Seq<Seq<char>>,
    fid: int,
)
    requires
        fcomps.len() >= 2,
        tcomps.len() >= 2,
        resolves_to(tree, fcomps.drop_last(), ResolveSpec::Found { comps: fpc, node: fdn }),
        dirs_ok(tree, fpc, 0),
        idx_of(dirs_entries(tree, fpc, 0), fcomps.last()) != -1,
        dirs_entries(tree, fpc, 0)[idx_of(dirs_entries(tree, fpc, 0), fcomps.last())] == (
        NodeV::File { name: fcomps.last(), file_id: fid }),
        crate::sys::resolved_target(
            remove_child(tree, fpc, 0, fcomps.last()),
            tcomps.drop_last(),
            tpc,
        ),
        !crate::edit::dirs_blocked(remove_child(tree, fpc, 0, fcomps.last()), tpc, 0),
        !crate::sys::dest_is_dir_spec(remove_child(tree, fpc, 0, fcomps.last()), tpc, tcomps.last()),
        rename_matches(r, tree, tree2, fcomps, tcomps, now),
    ensures
        r is Ok,
        tree2 == put_child(
            with_dirs(remove_child(tree, fpc, 0, fcomps.last()), tpc, 0, now),
            tpc,
            0,
            NodeV::File { name: tcomps.last(), file_id: fid },
        ),
{
    let fparent = fcomps.drop_last();
    let tparent = tcomps.drop_last();
    let fname = fcomps.last();
    let tname = tcomps.last();
    let sfound = ResolveSpec::Found { comps: fpc, node: fdn };
    let p = dirs_entries(tree, fpc, 0);
    lemma_idx_of(p, fname);
    let t1 = remove_child(tree, fpc, 0, fname);
    match r {
        Ok(()) => {},
        Err(FsError::NotFound) => {
            if exists|c: Seq<Seq<char>>|
                resolves_to(tree, fparent, ResolveSpec::NotFound { comps: c }) {
                let c = choose|c: Seq<Seq<char>>|
                    resolves_to(tree, fparent, ResolveSpec::NotFound { comps: c });
                crate::lookup::lemma_resolve_det(
                    tree,
                    fparent,
                    sfound,
                    ResolveSpec::NotFound { comps: c },
                );
            } else {
                let (pc2, dn2) = choose|pc2: Seq<Seq<char>>, dn2: NodeV|
                    #[trigger] resolves_to(
                        tree,
                        fparent,
                        ResolveSpec::Found { comps: pc2, node: dn2 },
                    ) && dirs_ok(tree, pc2, 0) && idx_of(dirs_entries(tree, pc2, 0), fname) == -1;
                crate::lookup::lemma_resolve_det(
                    tree,
                    fparent,
                    sfound,
                    ResolveSpec::Found { comps: pc2, node: dn2 },
                );
            }
            assert(false);
        },
        Err(FsError::NotAFile) => {
            let (pc2, dn2) = choose|pc2: Seq<Seq<char>>, dn2: NodeV|
                #[trigger] resolves_to(tree, fparent, ResolveSpec::Found { comps: pc2, node: dn2 })
                    && dirs_ok(tree, pc2, 0) && idx_of(dirs_entries(tree, pc2, 0), fname) != -1
                    && !(dirs_entries(tree, pc2, 0)[idx_of(dirs_entries(tree, pc2, 0), fname)]
                    matches NodeV::File { .. });
            crate::lookup::lemma_resolve_det(
                tree,
                fparent,
                sfound,
                ResolveSpec::Found { comps: pc2, node: dn2 },
            );
            assert(false);
        },
        Err(FsError::RenameOntoDirectory) => {
            let (fpc2, tpc2, fid2) = choose|fpc2: Seq<Seq<char>>, tpc2: Seq<Seq<char>>, fid2: int|
                {
                    &&& #[trigger] crate::sys::file_at(tree, fparent, fpc2, fname, fid2)
                    &&& #[trigger] crate::sys::resolved_target(
                        remove_child(tree, fpc2, 0, fname),
                        tparent,
                        tpc2,
                    )
                    &&& crate::sys::dest_is_dir_spec(remove_child(tree, fpc2, 0, fname), tpc2, tname)
                    &&& tree2 == put_child(
                        remove_child(tree, fpc2, 0, fname),
                        fpc2,
                        0,
                        NodeV::File { name: fname, file_id: fid2 },
                    )
                };
            let dn0 = choose|dn: NodeV|
                #[trigger] resolves_to(tree, fparent, ResolveSpec::Found { comps: fpc2, node: dn });
            crate::lookup::lemma_resolve_det(
                tree,
                fparent,
                sfound,
                ResolveSpec::Found { comps: fpc2, node: dn0 },
            );
            assert(fpc2 == fpc);
            lemma_target_det(t1, tparent, tpc, tpc2);
            assert(false);
        },
        Err(FsError::LeadsIntoFile) => {
            if resolves_to(tree, fparent, ResolveSpec::IntoFile) {
                crate::lookup::lemma_resolve_det(tree, fparent, sfound, ResolveSpec::IntoFile);
            } else if exists|pc2: Seq<Seq<char>>, dn2: NodeV|
                #[trigger] resolves_to(tree, fparent, ResolveSpec::Found { comps: pc2, node: dn2 })
                    && !dirs_ok(tree, pc2, 0) {
                let (pc2, dn2) = choose|pc2: Seq<Seq<char>>, dn2: NodeV|
                    #[trigger] resolves_to(
                        tree,
                        fparent,
                        ResolveSpec::Found { comps: pc2, node: dn2 },
                    ) && !dirs_ok(tree, pc2, 0);
                crate::lookup::lemma_resolve_det(
                    tree,
                    fparent,
                    sfound,
                    ResolveSpec::Found { comps: pc2, node: dn2 },
                );
            } else {
                let (fpc2, fid2) = choose|fpc2: Seq<Seq<char>>, fid2: int|
                    {
                        &&& #[trigger] crate::sys::file_at(tree, fparent, fpc2, fname, fid2)
                        &&& (crate::sys::resolve_errs(
                            remove_child(tree, fpc2, 0, fname),
                            tparent,
                            FsError::LeadsIntoFile,
                        ) || exists|tpc2: Seq<Seq<char>>|
                            #[trigger] crate::sys::resolved_target(
                                remove_child(tree, fpc2, 0, fname),
                                tparent,
                                tpc2,
                            ) && crate::edit::dirs_blocked(
                                remove_child(tree, fpc2, 0, fname),
                                tpc2,
                                0,
                            ))
                        &&& tree2 == put_child(
                            remove_child(tree, fpc2, 0, fname),
                            fpc2,
                            0,
                            NodeV::File { name: fname, file_id: fid2 },
                        )
                    };
                let dn0 = choose|dn: NodeV|
                    #[trigger] resolves_to(
                        tree,
                        fparent,
                        ResolveSpec::Found { comps: fpc2, node: dn },
                    );
                crate::lookup::lemma_resolve_det(
                    tree,
                    fparent,
                    sfound,
                    ResolveSpec::Found { comps: fpc2, node: dn0 },
                );
                assert(fpc2 == fpc);
                if crate::sys::resolve_errs(t1, tparent, FsError::LeadsIntoFile) {
                    lemma_target_refutes_errs(t1, tparent, tpc, FsError::LeadsIntoFile);
                } else {
                    let tpc2 = choose|tpc2: Seq<Seq<char>>|
                        #[trigger] crate::sys::resolved_target(t1, tparent, tpc2)
                            && crate::edit::dirs_blocked(t1, tpc2, 0);
                    lemma_target_det(t1, tparent, tpc, tpc2);
                }
            }
            assert(false);
        },
        Err(e) => {
            lemma_settled_refutes_errs(tree, fparent, sfound, e);
            let (fpc2, fid2) = choose|fpc2: Seq<Seq<char>>, fid2: int|
                {
                    &&& #[trigger] crate::sys::file_at(tree, fparent, fpc2, fname, fid2)
                    &&& crate::sys::resolve_errs(remove_child(tree, fpc2, 0, fname), tparent, e)
                    &&& tree2 == put_child(
                        remove_child(tree, fpc2, 0, fname),
                        fpc2,
                        0,
                        NodeV::File { name: fname, file_id: fid2 },
                    )
                };
            let dn0 = choose|dn: NodeV|
                #[trigger] resolves_to(tree, fparent, ResolveSpec::Found { comps: fpc2, node: dn });
            crate::lookup::lemma_resolve_det(
                tree,
                fparent,
                sfound,
                ResolveSpec::Found { comps: fpc2, node: dn0 },
            );
            assert(fpc2 == fpc);
            lemma_target_refutes_errs(t1, tparent, tpc, e);
            assert(false);
        },
    }
    let (fpc2, tpc2, fid2) = choose|fpc2: Seq<Seq<char>>, tpc2: Seq<Seq<char>>, fid2: int|
        {
            &&& #[trigger] crate::sys::file_at(tree, fparent, fpc2, fname, fid2)
            &&& #[trigger] crate::sys::resolved_target(
                remove_child(tree, fpc2, 0, fname),
                tparent,
                tpc2,
            )
            &&& !crate::edit::dirs_blocked(remove_child(tree, fpc2, 0, fname), tpc2, 0)
            &&& !crate::sys::dest_is_dir_spec(remove_child(tree, fpc2, 0, fname), tpc2, tname)
            &&& tree2 == put_child(
                with_dirs(remove_child(tree, fpc2, 0, fname), tpc2, 0, now),
                tpc2,
                0,
                NodeV::File { name: tname, file_id: fid2 },
            )
        };
    let dn0 = choose|dn: NodeV|
        #[trigger] resolves_to(tree, fparent, ResolveSpec::Found { comps: fpc2, node: dn });
    crate::lookup::lemma_resolve_det(
        tree,
        fparent,
        sfound,
        ResolveSpec::Found { comps: fpc2, node: dn0 },
    );
    assert(fpc2 == fpc);
    assert(fid2 == fid);
    lemma_target_det(t1, tparent, tpc, tpc2);
}


/// Renaming a file onto an existing directory is always refused, whatever
/// directories are involved, and the refusal is externally a no-op: the
/// detached source goes straight back and the tree is exactly as before.
/// `r` is any answer the rename contract admits on these inputs.
pub proof fn lemma_rename_onto_dir_forced(
    r: Result<(), FsError>,
    tree: Seq<NodeV>,
    tree2: Seq<NodeV>,
    fcomps: Seq<Seq<char>>,
    tcomps: Seq<Seq<char>>,
    now: u64,
    fpc: Seq<Seq<char>>,
    fdn: NodeV,
    tpc: Seq<Seq<char>>,
    fid: int,
)
    requires
        fcomps.len() >= 2,
        tcomps.len() >= 2,
        resolves_to(tree, fcomps.drop_last(), ResolveSpec::Found { comps: fpc, node: fdn }),
        dirs_ok(tree, fpc, 0),
        entries_sorted(dirs_entries(tree, fpc, 0)),
        idx_of(dirs_entries(tree, fpc, 0), fcomps.last()) != -1,
        dirs_entries(tree, fpc, 0)[idx_of(dirs_entries(tree, fpc, 0), fcomps.last())] == (
        NodeV::File { name: fcomps.last(), file_id: fid }),
        crate::sys::resolved_target(
            remove_child(tree, fpc, 0, fcomps.last()),
            tcomps.drop_last(),
            tpc,
        ),
        crate::sys::dest_is_dir_spec(remove_child(tree, fpc, 0, fcomps.last()), tpc, tcomps.last()),
        rename_matches(r, tree, tree2, fcomps, tcomps, now),
    ensures
        r == Err::<(), FsError>(FsError::RenameOntoDirectory),
        tree2 == tree,
{
    let fparent = fcomps.drop_last();
    let tparent = tcomps.drop_last();
    let fname = fcomps.last();
    let tname = tcomps.last();
    let sfound = ResolveSpec::Found { comps: fpc, node: fdn };
    let p = dirs_entries(tree, fpc, 0);
    lemma_idx_of(p, fname);
    let t1 = remove_child(tree, fpc, 0, fname);
    match r {
        Ok(()) => {
            let (fpc2, tpc2, fid2) = choose|fpc2: Seq<Seq<char>>, tpc2: Seq<Seq<char>>, fid2: int|
                {
                    &&& #[trigger] crate::sys::file_at(tree, fparent, fpc2, fname, fid2)
                    &&& #[trigger] crate::sys::resolved_target(
                        remove_child(tree, fpc2, 0, fname),
                        tparent,
                        tpc2,
                    )
                    &&& !crate::edit::dirs_blocked(remove_child(tree, fpc2, 0, fname), tpc2, 0)
                    &&& !crate::sys::dest_is_dir_spec(
                        remove_child(tree, fpc2, 0, fname),
                        tpc2,
                        tname,
                    )
                    &&& tree2 == put_child(
                        with_dirs(remove_child(tree, fpc2, 0, fname), tpc2, 0, now),
                        tpc2,
                        0,
                        NodeV::File { name: tname, file_id: fid2 },
                    )
                };
            let dn0 = choose|dn: NodeV|
                #[trigger] resolves_to(tree, fparent, ResolveSpec::Found { comps: fpc2, node: dn });
            crate::lookup::lemma_resolve_det(
                tree,
                fparent,
                sfound,
                ResolveSpec::Found { comps: fpc2, node: dn0 },
            );
            assert(fpc2 == fpc);
            lemma_target_det(t1, tparent, tpc, tpc2);
            assert(false);
        },
        Err(FsError::NotFound) => {
            if exists|c: Seq<Seq<char>>|
                resolves_to(tree, fparent, ResolveSpec::NotFound { comps: c }) {
                let c = choose|c: Seq<Seq<char>>|
                    resolves_to(tree, fparent, ResolveSpec::NotFound { comps: c });
                crate::lookup::lemma_resolve_det(
                    tree,
                    fparent,
                    sfound,
                    ResolveSpec::NotFound { comps: c },
                );
            } else {
                let (pc2, dn2) = choose|pc2: Seq<Seq<char>>, dn2: NodeV|
                    #[trigger] resolves_to(
                        tree,
                        fparent,
                        ResolveSpec::Found { comps: pc2, node: dn2 },
                    ) && dirs_ok(tree, pc2, 0) && idx_of(dirs_entries(tree, pc2, 0), fname) == -1;
                crate::lookup::lemma_resolve_det(
                    tree,
                    fparent,
                    sfound,
                    ResolveSpec::Found { comps: pc2, node: dn2 },
                );
            }
            assert(false);
        },
        Err(FsError::NotAFile) => {
            let (pc2, dn2) = choose|pc2: Seq<Seq<char>>, dn2: NodeV|
                #[trigger] resolves_to(tree, fparent, ResolveSpec::Found { comps: pc2, node: dn2 })
                    && dirs_ok(tree, pc2, 0) && idx_of(dirs_entries(tree, pc2, 0), fname) != -1
                    && !(dirs_entries(tree, pc2, 0)[idx_of(dirs_entries(tree, pc2, 0), fname)]
                    matches NodeV::File { .. });
            crate::lookup::lemma_resolve_det(
                tree,
                fparent,
                sfound,
                ResolveSpec::Found { comps: pc2, node: dn2 },
            );
            assert(false);
        },
        Err(FsError::RenameOntoDirectory) => {
            let (fpc2, tpc2, fid2) = choose|fpc2: Seq<Seq<char>>, tpc2: Seq<Seq<char>>, fid2: int|
                {
                    &&& #[trigger] crate::sys::file_at(tree, fparent, fpc2, fname, fid2)
                    &&& #[trigger] crate::sys::resolved_target(
                        remove_child(tree, fpc2, 0, fname),
                        tparent,
                        tpc2,
                    )
                    &&& crate::sys::dest_is_dir_spec(remove_child(tree, fpc2, 0, fname), tpc2, tname)
                    &&& tree2 == put_child(
                        remove_child(tree, fpc2, 0, fname),
                        fpc2,
                        0,
                        NodeV::File { name: fname, file_id: fid2 },
                    )
                };
            let dn0 = choose|dn: NodeV|
                #[trigger] resolves_to(tree, fparent, ResolveSpec::Found { comps: fpc2, node: dn });
            crate::lookup::lemma_resolve_det(
                tree,
                fparent,
                sfound,
                ResolveSpec::Found { comps: fpc2, node: dn0 },
            );
            assert(fpc2 == fpc);
            assert(fid2 == fid);
            lemma_rename_onto_dir_noop(tree, tree2, fpc, fname, fid);
        },
        Err(FsError::LeadsIntoFile) => {
            if resolves_to(tree, fparent, ResolveSpec::IntoFile) {
                crate::lookup::lemma_resolve_det(tree, fparent, sfound, ResolveSpec::IntoFile);
            } else if exists|pc2: Seq<Seq<char>>, dn2: NodeV|
                #[trigger] resolves_to(tree, fparent, ResolveSpec::Found { comps: pc2, node: dn2 })
                    && !dirs_ok(tree, pc2, 0) {
                let (pc2, dn2) = choose|pc2: Seq<Seq<char>>, dn2: NodeV|
                    #[trigger] resolves_to(
                        tree,
                        fparent,
                        ResolveSpec::Found { comps: pc2, node: dn2 },
                    ) && !dirs_ok(tree, pc2, 0);
                crate::lookup::lemma_resolve_det(
                    tree,
                    fparent,
                    sfound,
                    ResolveSpec::Found { comps: pc2, node: dn2 },
                );
            } else {
                let (fpc2, fid2) = choose|fpc2: Seq<Seq<char>>, fid2: int|
                    {
                        &&& #[trigger] crate::sys::file_at(tree, fparent, fpc2, fname, fid2)
                        &&& (crate::sys::resolve_errs(
                            remove_child(tree, fpc2, 0, fname),
                            tparent,
                            FsError::LeadsIntoFile,
                        ) || exists|tpc2: Seq<Seq<char>>|
                            #[trigger] crate::sys::resolved_target(
                                remove_child(tree, fpc2, 0, fname),
                                tparent,
                                tpc2,
                            ) && crate::edit::dirs_blocked(
                                remove_child(tree, fpc2, 0, fname),
                                tpc2,
                                0,
                            ))
                        &&& tree2 == put_child(
                            remove_child(tree, fpc2, 0, fname),
                            fpc2,
                            0,
                            NodeV::File { name: fname, file_id: fid2 },
                        )
                    };
                let dn0 = choose|dn: NodeV|
                    #[trigger] resolves_to(
                        tree,
                        fparent,
                        ResolveSpec::Found { comps: fpc2, node: dn },
                    );
                crate::lookup::lemma_resolve_det(
                    tree,
                    fparent,
                    sfound,
                    ResolveSpec::Found { comps: fpc2, node: dn0 },
                );
                assert(fpc2 == fpc);
                if crate::sys::resolve_errs(t1, tparent, FsError::LeadsIntoFile) {
                    lemma_target_refutes_errs(t1, tparent, tpc, FsError::LeadsIntoFile);
                } else {
                    let tpc2 = choose|tpc2: Seq<Seq<char>>|
                        #[trigger] crate::sys::resolved_target(t1, tparent, tpc2)
                            && crate::edit::dirs_blocked(t1, tpc2, 0);
                    lemma_target_det(t1, tparent, tpc, tpc2);
                    crate::edit::lemma_dirs_ok_not_blocked(t1, tpc, 0);
                }
            }
            assert(false);
        },
        Err(e) => {
            lemma_settled_refutes_errs(tree, fparent, sfound, e);
            let (fpc2, fid2) = choose|fpc2: Seq<Seq<char>>, fid2: int|
                {
                    &&& #[trigger] crate::sys::file_at(tree, fparent, fpc2, fname, fid2)
                    &&& crate::sys::resolve_errs(remove_child(tree, fpc2, 0, fname), tparent, e)
                    &&& tree2 == put_child(
                        remove_child(tree, fpc2, 0, fname),
                        fpc2,
                        0,
                        NodeV::File { name: fname, file_id: fid2 },
                    )
                };
            let dn0 = choose|dn: NodeV|
                #[trigger] resolves_to(tree, fparent, ResolveSpec::Found { comps: fpc2, node: dn });
            crate::lookup::lemma_resolve_det(
                tree,
                fparent,
                sfound,
                ResolveSpec::Found { comps: fpc2, node: dn0 },
            );
            assert(fpc2 == fpc);
            lemma_target_refutes_errs(t1, tparent, tpc, e);
            assert(false);
        },
    }
}

} // verus!
