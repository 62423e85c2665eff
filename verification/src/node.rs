//! The tree data model: file, directory and symlink nodes.
//!
//! A directory owns its children as a vector kept strictly sorted by name, so
//! duplicate names are structurally impossible. File nodes do not carry their
//! bytes directly: they point into the owning system's file store, so every
//! open handle on a file shares one buffer. Contracts speak about the ghost
//! mirror [`NodeV`] of the tree, reached through [`node_view`] and
//! [`entries_view`].

use vstd::prelude::*;
use vstd::string::StrSliceExecFns;

verus! {

/// The stored contents and attributes of one file.
pub struct FileData {
    /// The byte contents.
    pub data: Vec<u8>,
    /// The permission bits; stored, never enforced.
    pub mode: u32,
    /// Creation time, in milliseconds of the active clock.
    pub created: u64,
    /// Last-modified time, in milliseconds of the active clock.
    pub modified: u64,
}

/// The ghost mirror of [`FileData`].
pub struct FileDataV {
    pub data: Seq<u8>,
    pub mode: u32,
    pub created: u64,
    pub modified: u64,
}

/// The ghost mirror of a stored file.
pub open spec fn fd_view(fd: FileData) -> FileDataV {
    FileDataV { data: fd.data@, mode: fd.mode, created: fd.created, modified: fd.modified }
}

/// The ghost mirror of the file store.
pub open spec fn files_view(fs: Seq<FileData>) -> Seq<FileDataV> {
    Seq::new(fs.len(), |i: int| fd_view(fs[i]))
}

/// One entry of the virtual tree.
pub enum Node {
    /// A file: its bytes live in the owning system's file store under
    /// `file_id`, shared with every open handle.
    File { name: String, file_id: usize },
    /// A directory owning its sorted children.
    Dir { name: String, created: u64, modified: u64, entries: Vec<Node> },
    /// A symbolic link holding its raw, unresolved target path.
    Symlink { name: String, target: String, created: u64, modified: u64 },
}

/// The ghost mirror of a tree node.
pub enum NodeV {
    File { name: Seq<char>, file_id: int },
    Dir { name: Seq<char>, created: u64, modified: u64, entries: Seq<NodeV> },
    Symlink { name: Seq<char>, target: Seq<char>, created: u64, modified: u64 },
}

/// The ghost mirror of a node.
pub open spec fn node_view(n: Node) -> NodeV
    decreases n,
{
    match n {
        Node::File { name, file_id } => NodeV::File { name: name@, file_id: file_id as int },
        Node::Dir { name, created, modified, entries } => NodeV::Dir {
            name: name@,
            created,
            modified,
            entries: entries_view(entries@),
        },
        Node::Symlink { name, target, created, modified } => NodeV::Symlink {
            name: name@,
            target: target@,
            created,
            modified,
        },
    }
}

/// The ghost mirror of an entry list.
pub open spec fn entries_view(es: Seq<Node>) -> Seq<NodeV>
    decreases es,
{
    if es.len() == 0 {
        Seq::empty()
    } else {
        entries_view(es.drop_last()).push(node_view(es.last()))
    }
}

/// The mirror of an entry list has the same length and mirrors each entry.
pub broadcast proof fn lemma_entries_view(es: Seq<Node>)
    ensures
        (#[trigger] entries_view(es)).len() == es.len(),
        forall|i: int| 0 <= i < es.len() ==> entries_view(es)[i] == node_view(es[i]),
    decreases es,
{
    if es.len() > 0 {
        lemma_entries_view(es.drop_last());
        assert(forall|i: int| 0 <= i < es.len() - 1 ==> es.drop_last()[i] == es[i]);
    }
}

/// The name under which a node is keyed in its parent.
pub open spec fn nv_name(n: NodeV) -> Seq<char> {
    match n {
        NodeV::File { name, .. } => name,
        NodeV::Dir { name, .. } => name,
        NodeV::Symlink { name, .. } => name,
    }
}

/// The name of an executable node, which its mirror keeps.
pub open spec fn name_of(n: Node) -> Seq<char> {
    nv_name(node_view(n))
}

/// Strict lexicographic order on names, by code point.
pub open spec fn lex_lt(a: Seq<char>, b: Seq<char>) -> bool
    decreases a.len(),
{
    if b.len() == 0 {
        false
    } else if a.len() == 0 {
        true
    } else if a[0] != b[0] {
        a[0] < b[0]
    } else {
        lex_lt(a.skip(1), b.skip(1))
    }
}

/// The order is transitive.
pub proof fn lemma_lex_trans(a: Seq<char>, b: Seq<char>, c: Seq<char>)
    requires
        lex_lt(a, b),
        lex_lt(b, c),
    ensures
        lex_lt(a, c),
    decreases a.len() + b.len() + c.len(),
{
    if c.len() == 0 || b.len() == 0 {
    } else if a.len() == 0 {
    } else {
        if a[0] == b[0] && b[0] == c[0] {
            lemma_lex_trans(a.skip(1), b.skip(1), c.skip(1));
        }
    }
}

/// The order is total: distinct names compare one way or the other.
pub proof fn lemma_lex_connected(a: Seq<char>, b: Seq<char>)
    ensures
        a == b || lex_lt(a, b) || lex_lt(b, a),
    decreases a.len(),
{
    if a.len() == 0 && b.len() == 0 {
        assert(a =~= b);
    } else if a.len() == 0 || b.len() == 0 {
    } else {
        if a[0] == b[0] {
            lemma_lex_connected(a.skip(1), b.skip(1));
            if a.skip(1) == b.skip(1) {
                assert(a.skip(1).len() == a.len() - 1);
                assert(b.skip(1).len() == b.len() - 1);
                assert(a.len() == b.len());
                assert forall|k: int| 0 <= k < a.len() implies a[k] == b[k] by {
                    if k >= 1 {
                        assert(a.skip(1)[k - 1] == a[k]);
                        assert(b.skip(1)[k - 1] == b[k]);
                    }
                }
                assert(a =~= b);
            }
        }
    }
}

/// Nothing is below itself.
pub proof fn lemma_lex_irrefl(a: Seq<char>)
    ensures
        !lex_lt(a, a),
    decreases a.len(),
{
    if a.len() > 0 {
        lemma_lex_irrefl(a.skip(1));
    }
}

proof fn lemma_lex_skip_common(a: Seq<char>, b: Seq<char>, i: int)
    requires
        0 <= i <= a.len(),
        i <= b.len(),
        forall|k: int| 0 <= k < i ==> a[k] == b[k],
    ensures
        lex_lt(a, b) == lex_lt(a.skip(i), b.skip(i)),
    decreases i,
{
    if i == 0 {
        assert(a.skip(0) =~= a);
        assert(b.skip(0) =~= b);
    } else {
        assert(a.len() > 0 && b.len() > 0);
        assert(a[0] == b[0]);
        assert(lex_lt(a, b) == lex_lt(a.skip(1), b.skip(1)));
        assert(forall|k: int|
            0 <= k < i - 1 ==> a.skip(1)[k] == a[k + 1] && b.skip(1)[k] == b[k + 1]);
        lemma_lex_skip_common(a.skip(1), b.skip(1), i - 1);
        assert(a.skip(1).skip(i - 1) =~= a.skip(i));
        assert(b.skip(1).skip(i - 1) =~= b.skip(i));
    }
}

/// Compares two names in the lexicographic order.
pub fn str_lt(a: &str, b: &str) -> (r: bool)
    ensures
        r == lex_lt(a@, b@),
{
    let alen = a.unicode_len();
    let blen = b.unicode_len();
    let mut i: usize = 0;
    while i < alen && i < blen
        invariant
            i <= alen,
            i <= blen,
            alen == a@.len(),
            blen == b@.len(),
            forall|k: int| 0 <= k < i ==> a@[k] == b@[k],
        decreases alen - i,
    {
        let ca = a.get_char(i);
        let cb = b.get_char(i);
        if ca != cb {
            proof {
                lemma_lex_skip_common(a@, b@, i as int);
                assert(a@.skip(i as int).len() > 0);
                assert(b@.skip(i as int).len() > 0);
                assert(a@.skip(i as int)[0] == ca);
                assert(b@.skip(i as int)[0] == cb);
            }
            return ca < cb;
        }
        i = i + 1;
    }
    proof {
        lemma_lex_skip_common(a@, b@, i as int);
        if i == alen {
            assert(a@.skip(i as int).len() == 0);
        }
        if i == blen {
            assert(b@.skip(i as int).len() == 0);
        }
    }
    alen < blen
}

/// Compares two names for equality.
pub fn str_eq(a: &str, b: &str) -> (r: bool)
    ensures
        r == (a@ == b@),
{
    let alen = a.unicode_len();
    let blen = b.unicode_len();
    if alen != blen {
        return false;
    }
    let mut i: usize = 0;
    while i < alen
        invariant
            i <= alen,
            alen == a@.len(),
            alen == b@.len(),
            forall|k: int| 0 <= k < i ==> a@[k] == b@[k],
        decreases alen - i,
    {
        if a.get_char(i) != b.get_char(i) {
            return false;
        }
        i = i + 1;
    }
    proof {
        assert(a@ =~= b@);
    }
    true
}

/// The name of a node.
pub fn node_name(n: &Node) -> (r: &String)
    ensures
        r@ == name_of(*n),
{
    match n {
        Node::File { name, .. } => name,
        Node::Dir { name, .. } => name,
        Node::Symlink { name, .. } => name,
    }
}

/// Children are strictly sorted by name.
pub open spec fn entries_sorted(es: Seq<NodeV>) -> bool {
    forall|i: int, j: int|
        0 <= i < j < es.len() ==> lex_lt(nv_name(#[trigger] es[i]), nv_name(#[trigger] es[j]))
}

/// A well-formed node: directories are recursively sorted and well-formed,
/// and every file points into the file store of `nfiles` files.
pub open spec fn nv_wf(n: NodeV, nfiles: nat) -> bool
    decreases n,
{
    match n {
        NodeV::File { file_id, .. } => 0 <= file_id < nfiles,
        NodeV::Dir { entries, .. } => {
            &&& entries_sorted(entries)
            &&& forall|i: int| 0 <= i < entries.len() ==> nv_wf(#[trigger] entries[i], nfiles)
        },
        NodeV::Symlink { .. } => true,
    }
}

/// A well-formed entry list.
pub open spec fn entries_wf(es: Seq<NodeV>, nfiles: nat) -> bool {
    &&& entries_sorted(es)
    &&& forall|i: int| 0 <= i < es.len() ==> nv_wf(#[trigger] es[i], nfiles)
}

/// Growing the file store never breaks well-formedness.
pub proof fn lemma_wf_grow(n: NodeV, nfiles: nat, more: nat)
    requires
        nv_wf(n, nfiles),
        nfiles <= more,
    ensures
        nv_wf(n, more),
    decreases n,
{
    match n {
        NodeV::Dir { entries, .. } => {
            assert forall|i: int| 0 <= i < entries.len() implies nv_wf(
                #[trigger] entries[i],
                more,
            ) by {
                lemma_wf_grow(entries[i], nfiles, more);
            }
        },
        _ => {},
    }
}

/// How many file nodes in the subtree of `n` point at store slot `fid`.
pub open spec fn node_id_count(n: NodeV, fid: int) -> nat
    decreases n,
{
    match n {
        NodeV::File { file_id, .. } => if file_id == fid {
            1
        } else {
            0
        },
        NodeV::Dir { entries, .. } => id_count(entries, fid),
        NodeV::Symlink { .. } => 0,
    }
}

/// How many file nodes in the forest `es` point at store slot `fid`.
pub open spec fn id_count(es: Seq<NodeV>, fid: int) -> nat
    decreases es,
{
    if es.len() == 0 {
        0
    } else {
        id_count(es.drop_last(), fid) + node_id_count(es.last(), fid)
    }
}

/// Every store slot is pointed at by at most one file node: distinct files
/// never share storage.
pub open spec fn ids_unique(es: Seq<NodeV>) -> bool {
    forall|fid: int| id_count(es, fid) <= 1
}

/// Counting distributes over concatenation.
pub proof fn lemma_id_count_concat(a: Seq<NodeV>, b: Seq<NodeV>, fid: int)
    ensures
        id_count(a + b, fid) == id_count(a, fid) + id_count(b, fid),
    decreases b.len(),
{
    if b.len() == 0 {
        assert(a + b =~= a);
    } else {
        assert((a + b).drop_last() =~= a + b.drop_last());
        assert((a + b).last() == b.last());
        lemma_id_count_concat(a, b.drop_last(), fid);
    }
}

/// What one entry contributes: counting over a list splits around any index.
pub proof fn lemma_id_count_at(es: Seq<NodeV>, k: int, fid: int)
    requires
        0 <= k < es.len(),
    ensures
        id_count(es, fid) == id_count(es.take(k), fid) + node_id_count(es[k], fid) + id_count(
            es.skip(k + 1),
            fid,
        ),
{
    assert(es =~= es.take(k) + seq![es[k]] + es.skip(k + 1));
    lemma_id_count_concat(es.take(k) + seq![es[k]], es.skip(k + 1), fid);
    lemma_id_count_concat(es.take(k), seq![es[k]], fid);
    let single = seq![es[k]];
    assert(single.drop_last() =~= Seq::<NodeV>::empty());
    assert(single.last() == es[k]);
    assert(id_count(single.drop_last(), fid) == 0);
    assert(id_count(single, fid) == id_count(single.drop_last(), fid) + node_id_count(
        single.last(),
        fid,
    ));
    assert(id_count(single, fid) == node_id_count(es[k], fid));
}

/// Counting after an insertion: the new entry's contribution is added.
pub proof fn lemma_id_count_insert(es: Seq<NodeV>, k: int, n: NodeV, fid: int)
    requires
        0 <= k <= es.len(),
    ensures
        id_count(es.insert(k, n), fid) == id_count(es, fid) + node_id_count(n, fid),
{
    let es2 = es.insert(k, n);
    lemma_id_count_at(es2, k, fid);
    assert(es2.take(k) =~= es.take(k));
    assert(es2.skip(k + 1) =~= es.skip(k));
    assert(es =~= es.take(k) + es.skip(k));
    lemma_id_count_concat(es.take(k), es.skip(k), fid);
}

/// Counting after a replacement: the old entry's contribution is swapped for
/// the new one's.
pub proof fn lemma_id_count_update(es: Seq<NodeV>, k: int, n: NodeV, fid: int)
    requires
        0 <= k < es.len(),
    ensures
        id_count(es.update(k, n), fid) + node_id_count(es[k], fid) == id_count(es, fid)
            + node_id_count(n, fid),
{
    let es2 = es.update(k, n);
    lemma_id_count_at(es2, k, fid);
    lemma_id_count_at(es, k, fid);
    assert(es2.take(k) =~= es.take(k));
    assert(es2.skip(k + 1) =~= es.skip(k + 1));
}

/// Counting after a removal: the removed entry's contribution is gone.
pub proof fn lemma_id_count_remove(es: Seq<NodeV>, k: int, fid: int)
    requires
        0 <= k < es.len(),
    ensures
        id_count(es.remove(k), fid) + node_id_count(es[k], fid) == id_count(es, fid),
{
    let es2 = es.remove(k);
    lemma_id_count_at(es, k, fid);
    assert(es2 =~= es.take(k) + es.skip(k + 1));
    lemma_id_count_concat(es.take(k), es.skip(k + 1), fid);
}

/// A slot at or past the store's end is pointed at by nothing in a
/// well-formed forest.
pub proof fn lemma_id_count_bound(es: Seq<NodeV>, nfiles: nat, fid: int)
    requires
        forall|i: int| 0 <= i < es.len() ==> nv_wf(#[trigger] es[i], nfiles),
        fid >= nfiles || fid < 0,
    ensures
        id_count(es, fid) == 0,
    decreases es,
{
    if es.len() > 0 {
        assert(forall|i: int| 0 <= i < es.len() - 1 ==> es.drop_last()[i] == es[i]);
        lemma_id_count_bound(es.drop_last(), nfiles, fid);
        lemma_node_id_count_bound(es.last(), nfiles, fid);
    }
}

/// A slot at or past the store's end is pointed at by nothing under a
/// well-formed node.
pub proof fn lemma_node_id_count_bound(n: NodeV, nfiles: nat, fid: int)
    requires
        nv_wf(n, nfiles),
        fid >= nfiles || fid < 0,
    ensures
        node_id_count(n, fid) == 0,
    decreases n,
{
    match n {
        NodeV::Dir { entries, .. } => {
            lemma_id_count_bound(entries, nfiles, fid);
        },
        _ => {},
    }
}

/// A larger file store never breaks an entry list's well-formedness.
pub proof fn lemma_entries_wf_grow(es: Seq<NodeV>, nfiles: nat, more: nat)
    requires
        entries_wf(es, nfiles),
        nfiles <= more,
    ensures
        entries_wf(es, more),
{
    assert forall|i: int| 0 <= i < es.len() implies nv_wf(#[trigger] es[i], more) by {
        lemma_wf_grow(es[i], nfiles, more);
    }
}

/// The index of the entry carrying `name`, or `-1` if there is none.
pub open spec fn idx_of(es: Seq<NodeV>, name: Seq<char>) -> int
    decreases es.len(),
{
    if es.len() == 0 {
        -1
    } else if nv_name(es[0]) == name {
        0
    } else if idx_of(es.skip(1), name) == -1 {
        -1
    } else {
        1 + idx_of(es.skip(1), name)
    }
}

/// What `idx_of` promises: a miss means no entry has the name, a hit is in
/// range, carries the name, and is the first index to do so.
pub proof fn lemma_idx_of(es: Seq<NodeV>, name: Seq<char>)
    ensures
        idx_of(es, name) == -1 ==> forall|k: int|
            0 <= k < es.len() ==> nv_name(#[trigger] es[k]) != name,
        idx_of(es, name) != -1 ==> 0 <= idx_of(es, name) < es.len() && nv_name(
            es[idx_of(es, name)],
        ) == name,
        idx_of(es, name) != -1 ==> forall|k: int|
            0 <= k < idx_of(es, name) ==> nv_name(#[trigger] es[k]) != name,
    decreases es.len(),
{
    if es.len() == 0 {
    } else if nv_name(es[0]) == name {
    } else {
        lemma_idx_of(es.skip(1), name);
        if idx_of(es, name) == -1 {
            assert forall|k: int| 0 <= k < es.len() implies nv_name(#[trigger] es[k]) != name by {
                if k >= 1 {
                    assert(es.skip(1)[k - 1] == es[k]);
                    assert(nv_name(es.skip(1)[k - 1]) != name);
                }
            }
        } else {
            assert(es.skip(1)[idx_of(es.skip(1), name)] == es[idx_of(es, name)]);
            assert forall|k: int| 0 <= k < idx_of(es, name) implies nv_name(#[trigger] es[k])
                != name by {
                if k >= 1 {
                    assert(es.skip(1)[k - 1] == es[k]);
                    assert(nv_name(es.skip(1)[k - 1]) != name);
                }
            }
        }
    }
}

/// A position whose entry carries the name, with no earlier one doing so, is
/// the `idx_of` index.
pub proof fn lemma_idx_of_first(es: Seq<NodeV>, name: Seq<char>, k: int)
    requires
        0 <= k < es.len(),
        nv_name(es[k]) == name,
        forall|j: int| 0 <= j < k ==> nv_name(#[trigger] es[j]) != name,
    ensures
        idx_of(es, name) == k,
    decreases es.len(),
{
    if k == 0 {
    } else {
        assert(forall|j: int| 0 <= j < k - 1 ==> es.skip(1)[j] == es[j + 1]);
        assert(es.skip(1)[k - 1] == es[k]);
        lemma_idx_of_first(es.skip(1), name, k - 1);
    }
}

/// In sorted entries any index carrying `name` is the `idx_of` index.
pub proof fn lemma_idx_of_unique(es: Seq<NodeV>, name: Seq<char>, i: int)
    requires
        entries_sorted(es),
        0 <= i < es.len(),
        nv_name(es[i]) == name,
    ensures
        idx_of(es, name) == i,
{
    lemma_idx_of(es, name);
    if idx_of(es, name) == -1 {
        assert(nv_name(es[i]) != name);
    } else {
        let j = idx_of(es, name);
        if i != j {
            lemma_lex_irrefl(name);
            assert(lex_lt(nv_name(es[if i < j {
                i
            } else {
                j
            }]), nv_name(es[if i < j {
                j
            } else {
                i
            }])));
        }
    }
}

/// Looks a name up among entries.
pub fn find_entry(es: &Vec<Node>, name: &str) -> (r: Option<usize>)
    ensures
        match r {
            Some(i) => i < es@.len() && name_of(es@[i as int]) == name@,
            None => forall|i: int| 0 <= i < es@.len() ==> name_of(#[trigger] es@[i]) != name@,
        },
{
    let mut i: usize = 0;
    while i < es.len()
        invariant
            i <= es@.len(),
            forall|k: int| 0 <= k < i ==> name_of(#[trigger] es@[k]) != name@,
        decreases es@.len() - i,
    {
        let n = node_name(&es[i]);
        if str_eq(n.as_str(), name) {
            return Some(i);
        }
        i = i + 1;
    }
    None
}

/// What `find_entry` reports, restated against the mirror: a hit is exactly
/// the `idx_of` index, a miss means `idx_of` reports none.
pub proof fn lemma_find_entry_view(es: Seq<Node>, name: Seq<char>, r: Option<usize>)
    requires
        entries_sorted(entries_view(es)),
        match r {
            Some(i) => i < es.len() && name_of(es[i as int]) == name,
            None => forall|i: int| 0 <= i < es.len() ==> name_of(#[trigger] es[i]) != name,
        },
    ensures
        match r {
            Some(i) => idx_of(entries_view(es), name) == i as int,
            None => idx_of(entries_view(es), name) == -1,
        },
{
    lemma_entries_view(es);
    let ev = entries_view(es);
    match r {
        Some(i) => {
            lemma_idx_of_unique(ev, name, i as int);
        },
        None => {
            lemma_idx_of(ev, name);
            if idx_of(ev, name) != -1 {
                let j = idx_of(ev, name);
                assert(name_of(es[j]) == name);
            }
        },
    }
}

/// The position at which `name` belongs in sorted entries: the index of the
/// first entry whose name is above it.
pub fn insert_pos(es: &Vec<Node>, name: &str) -> (r: usize)
    ensures
        r <= es@.len(),
        forall|k: int| 0 <= k < r ==> !lex_lt(name@, name_of(#[trigger] es@[k])),
        r < es@.len() ==> lex_lt(name@, name_of(es@[r as int])),
{
    let mut i: usize = 0;
    while i < es.len()
        invariant
            i <= es@.len(),
            forall|k: int| 0 <= k < i ==> !lex_lt(name@, name_of(#[trigger] es@[k])),
        decreases es@.len() - i,
    {
        let n = node_name(&es[i]);
        if str_lt(name, n.as_str()) {
            return i;
        }
        i = i + 1;
    }
    es.len()
}

/// Inserting a fresh name at its position keeps entries sorted.
pub proof fn lemma_insert_sorted(es: Seq<NodeV>, n: NodeV, r: int)
    requires
        entries_sorted(es),
        0 <= r <= es.len(),
        forall|k: int| 0 <= k < r ==> !lex_lt(nv_name(n), nv_name(#[trigger] es[k])),
        r < es.len() ==> lex_lt(nv_name(n), nv_name(es[r])),
        forall|k: int| 0 <= k < es.len() ==> nv_name(#[trigger] es[k]) != nv_name(n),
    ensures
        entries_sorted(es.insert(r, n)),
{
    let es2 = es.insert(r, n);
    assert forall|i: int, j: int| 0 <= i < j < es2.len() implies lex_lt(
        nv_name(#[trigger] es2[i]),
        nv_name(#[trigger] es2[j]),
    ) by {
        if i == r {
            let oj = j - 1;
            assert(es2[j] == es[oj]);
            if oj == r {
                assert(lex_lt(nv_name(n), nv_name(es[r])));
            } else {
                lemma_lex_trans(nv_name(n), nv_name(es[r]), nv_name(es[oj]));
            }
        } else if j == r {
            assert(es2[i] == es[i]);
            lemma_lex_connected(nv_name(es[i]), nv_name(n));
            assert(nv_name(es[i]) != nv_name(n));
            assert(!lex_lt(nv_name(n), nv_name(es[i])));
        } else {
            let oi = if i < r {
                i
            } else {
                i - 1
            };
            let oj = if j < r {
                j
            } else {
                j - 1
            };
            assert(es2[i] == es[oi]);
            assert(es2[j] == es[oj]);
        }
    }
}

/// Replacing an entry with one of the same name keeps entries sorted.
pub proof fn lemma_update_sorted(es: Seq<NodeV>, n: NodeV, r: int)
    requires
        entries_sorted(es),
        0 <= r < es.len(),
        nv_name(n) == nv_name(es[r]),
    ensures
        entries_sorted(es.update(r, n)),
{
    let es2 = es.update(r, n);
    assert forall|i: int, j: int| 0 <= i < j < es2.len() implies lex_lt(
        nv_name(#[trigger] es2[i]),
        nv_name(#[trigger] es2[j]),
    ) by {
        assert(lex_lt(nv_name(es[i]), nv_name(es[j])));
    }
}

/// Removing an entry keeps the rest sorted.
pub proof fn lemma_remove_sorted(es: Seq<NodeV>, r: int)
    requires
        entries_sorted(es),
        0 <= r < es.len(),
    ensures
        entries_sorted(es.remove(r)),
{
    let es2 = es.remove(r);
    assert forall|i: int, j: int| 0 <= i < j < es2.len() implies lex_lt(
        nv_name(#[trigger] es2[i]),
        nv_name(#[trigger] es2[j]),
    ) by {
        let oi = if i < r {
            i
        } else {
            i + 1
        };
        let oj = if j < r {
            j
        } else {
            j + 1
        };
        assert(es2[i] == es[oi]);
        assert(es2[j] == es[oj]);
    }
}

} // verus!
