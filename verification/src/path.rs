//! Pure lexical path handling.
//!
//! A path is a plain string. Splitting on `/` yields its segments; empty
//! segments and `.` are dropped, and `..` pops the segment pushed before it
//! (popping past the start is a no-op, not an error). A leading `/` marks the
//! path as absolute. [`normalize_path`] folds a path into its normal form
//! without consulting any tree: the same folding absolutizes a relative path
//! against the working directory and resolves a symlink target against its
//! containing directory.

use vstd::prelude::*;
use vstd::string::StrSliceExecFns;
use vstd::string::StringExecFns;

verus! {

/// The single dot segment, dropped during folding.
pub open spec fn dot() -> Seq<char> {
    seq!['.']
}

/// The double dot segment, which pops during folding.
pub open spec fn dotdot() -> Seq<char> {
    seq!['.', '.']
}

/// Whether a path string is absolute: it starts with a separator.
pub open spec fn is_abs(s: Seq<char>) -> bool {
    s.len() > 0 && s[0] == '/'
}

/// The still-open trailing segment of `s`: everything after the last `/`.
pub open spec fn open_seg(s: Seq<char>) -> Seq<char>
    decreases s.len(),
{
    if s.len() == 0 {
        Seq::empty()
    } else if s.last() == '/' {
        Seq::empty()
    } else {
        open_seg(s.drop_last()).push(s.last())
    }
}

/// Whether a segment survives cleaning: nonempty and not `.`.
pub open spec fn keep_seg(g: Seq<char>) -> bool {
    g.len() > 0 && g != dot()
}

/// The cleaned segments of `s` that are already closed by a `/`.
pub open spec fn closed_segs(s: Seq<char>) -> Seq<Seq<char>>
    decreases s.len(),
{
    if s.len() == 0 {
        Seq::empty()
    } else if s.last() == '/' {
        let p = s.drop_last();
        if keep_seg(open_seg(p)) {
            closed_segs(p).push(open_seg(p))
        } else {
            closed_segs(p)
        }
    } else {
        closed_segs(s.drop_last())
    }
}

/// All cleaned segments of `s`: the closed ones plus the open one, if kept.
pub open spec fn segs_of(s: Seq<char>) -> Seq<Seq<char>> {
    if keep_seg(open_seg(s)) {
        closed_segs(s).push(open_seg(s))
    } else {
        closed_segs(s)
    }
}

/// Folds `.`-free segments: each `..` pops the segment before it, a pop on an
/// empty stack is a no-op, everything else is pushed in order.
pub open spec fn fold_segs(gs: Seq<Seq<char>>) -> Seq<Seq<char>>
    decreases gs.len(),
{
    if gs.len() == 0 {
        Seq::empty()
    } else {
        let pre = fold_segs(gs.drop_last());
        if gs.last() == dotdot() {
            if pre.len() == 0 {
                pre
            } else {
                pre.drop_last()
            }
        } else {
            pre.push(gs.last())
        }
    }
}

/// Joins segments with a leading separator before each: `/a/b`.
pub open spec fn join_abs(gs: Seq<Seq<char>>) -> Seq<char>
    decreases gs.len(),
{
    if gs.len() == 0 {
        Seq::empty()
    } else {
        join_abs(gs.drop_last()) + seq!['/'] + gs.last()
    }
}

/// Joins segments with separators between them: `a/b`.
pub open spec fn join_rel(gs: Seq<Seq<char>>) -> Seq<char>
    decreases gs.len(),
{
    if gs.len() == 0 {
        Seq::empty()
    } else if gs.len() == 1 {
        gs[0]
    } else {
        join_rel(gs.drop_last()) + seq!['/'] + gs.last()
    }
}

/// The string form of a segment list, absolute or relative.
pub open spec fn join_path(abs: bool, gs: Seq<Seq<char>>) -> Seq<char> {
    if abs {
        if gs.len() == 0 {
            seq!['/']
        } else {
            join_abs(gs)
        }
    } else {
        join_rel(gs)
    }
}

/// The normalized segments of a path string.
pub open spec fn norm_segs(s: Seq<char>) -> Seq<Seq<char>> {
    fold_segs(segs_of(s))
}

/// The normal form of a path string.
pub open spec fn norm_str(s: Seq<char>) -> Seq<char> {
    join_path(is_abs(s), norm_segs(s))
}

/// Whether a path is absolute.
pub fn is_abs_path(s: &str) -> (r: bool)
    ensures
        r == is_abs(s@),
{
    s.unicode_len() > 0 && s.get_char(0) == '/'
}

/// Splits a path into its cleaned segments: split on `/`, dropping empty
/// segments and `.`.
pub fn parse_segs(s: &str) -> (r: Vec<String>)
    ensures
        r.deep_view() == segs_of(s@),
{
    let n = s.unicode_len();
    let mut segs: Vec<String> = Vec::new();
    let mut start: usize = 0;
    let mut i: usize = 0;
    while i < n
        invariant
            start <= i <= n,
            n == s@.len(),
            segs.deep_view() == closed_segs(s@.subrange(0, i as int)),
            s@.subrange(start as int, i as int) == open_seg(s@.subrange(0, i as int)),
        decreases n - i,
    {
        let ghost pre = s@.subrange(0, i as int);
        let ghost g = open_seg(pre);
        let c = s.get_char(i);
        proof {
            assert(s@.subrange(0, i + 1).drop_last() =~= pre);
            assert(s@.subrange(0, i + 1).last() == c);
        }
        if c == '/' {
            let keep = i > start && !(i - start == 1 && s.get_char(start) == '.');
            proof {
                assert(g == s@.subrange(start as int, i as int));
                if i == start {
                    assert(g.len() == 0);
                    assert(!keep_seg(g));
                } else if i - start == 1 && s@[start as int] == '.' {
                    assert(g =~= dot());
                    assert(!keep_seg(g));
                } else {
                    assert(g.len() > 0);
                    if g.len() == 1 {
                        assert(g[0] == s@[start as int]);
                        assert(g != dot());
                    } else {
                        assert(g != dot());
                    }
                    assert(keep_seg(g));
                }
                assert(keep == keep_seg(g));
            }
            if keep {
                let seg = s.substring_char(start, i).to_owned();
                proof {
                    assert(seg@ == g);
                }
                segs.push(seg);
                proof {
                    assert(segs.deep_view() =~= closed_segs(s@.subrange(0, i + 1)));
                }
            } else {
                proof {
                    assert(segs.deep_view() =~= closed_segs(s@.subrange(0, i + 1)));
                }
            }
            start = i + 1;
            proof {
                assert(s@.subrange(start as int, i + 1) =~= open_seg(s@.subrange(0, i + 1)));
            }
        } else {
            proof {
                assert(s@.subrange(start as int, i + 1) =~= g.push(c));
                assert(open_seg(s@.subrange(0, i + 1)) == g.push(c));
            }
        }
        i = i + 1;
    }
    proof {
        assert(s@.subrange(0, n as int) =~= s@);
    }
    if i > start {
        let keep = !(i - start == 1 && s.get_char(start) == '.');
        proof {
            let g = open_seg(s@);
            assert(g == s@.subrange(start as int, n as int));
            if i - start == 1 && s@[start as int] == '.' {
                assert(g =~= dot());
            } else {
                if g.len() == 1 {
                    assert(g[0] == s@[start as int]);
                    assert(g != dot());
                }
            }
        }
        if keep {
            let g = s.substring_char(start, n).to_owned();
            segs.push(g);
        }
        proof {
            assert(segs.deep_view() =~= segs_of(s@));
        }
    } else {
        proof {
            assert(open_seg(s@) =~= s@.subrange(start as int, n as int));
            assert(open_seg(s@).len() == 0);
            assert(segs.deep_view() =~= segs_of(s@));
        }
    }
    segs
}

/// Whether a segment is the `..` segment.
fn is_dotdot(g: &String) -> (r: bool)
    ensures
        r == (g@ == dotdot()),
{
    let n = g.as_str().unicode_len();
    if n == 2 && g.as_str().get_char(0) == '.' && g.as_str().get_char(1) == '.' {
        proof {
            assert(g@ =~= dotdot());
        }
        true
    } else {
        proof {
            if g@ == dotdot() {
                assert(g@.len() == 2);
                assert(g@[0] == '.');
                assert(g@[1] == '.');
            }
        }
        false
    }
}

/// Folds a cleaned segment list, collapsing `..` against what came before.
pub fn fold_segs_vec(segs: Vec<String>) -> (r: Vec<String>)
    ensures
        r.deep_view() == fold_segs(segs.deep_view()),
{
    let mut out: Vec<String> = Vec::new();
    let mut j: usize = 0;
    while j < segs.len()
        invariant
            j <= segs.len(),
            out.deep_view() == fold_segs(segs.deep_view().subrange(0, j as int)),
        decreases segs.len() - j,
    {
        let ghost pre = segs.deep_view().subrange(0, j as int);
        proof {
            assert(segs.deep_view().subrange(0, j + 1).drop_last() =~= pre);
            assert(segs.deep_view().subrange(0, j + 1).last() == segs.deep_view()[j as int]);
        }
        if is_dotdot(&segs[j]) {
            if out.len() > 0 {
                out.pop();
                proof {
                    assert(out.deep_view() =~= fold_segs(segs.deep_view().subrange(0, j + 1)));
                }
            } else {
                proof {
                    assert(out.deep_view() =~= fold_segs(segs.deep_view().subrange(0, j + 1)));
                }
            }
        } else {
            let g = segs[j].clone();
            out.push(g);
            proof {
                assert(out.deep_view() =~= fold_segs(segs.deep_view().subrange(0, j + 1)));
            }
        }
        j = j + 1;
    }
    proof {
        assert(segs.deep_view().subrange(0, segs.deep_view().len() as int) =~= segs.deep_view());
    }
    out
}

/// Joins a segment list back into a path string.
pub fn join_segs(abs: bool, segs: &Vec<String>) -> (r: String)
    ensures
        r@ == join_path(abs, segs.deep_view()),
{
    proof {
        reveal_strlit("/");
        reveal_strlit("");
    }
    if abs {
        if segs.len() == 0 {
            let r = String::from_str("/");
            proof {
                assert(r@ =~= seq!['/']);
            }
            return r;
        }
        let mut out = String::from_str("");
        proof {
            assert(out@ =~= join_abs(segs.deep_view().subrange(0, 0)));
        }
        let mut j: usize = 0;
        while j < segs.len()
            invariant
                j <= segs.len(),
                out@ == join_abs(segs.deep_view().subrange(0, j as int)),
            decreases segs.len() - j,
        {
            proof {
                reveal_strlit("/");
                assert(segs.deep_view().subrange(0, j + 1).drop_last() =~= segs.deep_view().subrange(
                    0,
                    j as int,
                ));
                assert(segs.deep_view().subrange(0, j + 1).last() == segs.deep_view()[j as int]);
            }
            out.append("/");
            out.append(segs[j].as_str());
            proof {
                assert(out@ =~= join_abs(segs.deep_view().subrange(0, j + 1)));
            }
            j = j + 1;
        }
        proof {
            assert(segs.deep_view().subrange(0, segs.deep_view().len() as int) =~= segs.deep_view());
        }
        out
    } else {
        let mut out = String::from_str("");
        proof {
            assert(out@ =~= join_rel(segs.deep_view().subrange(0, 0)));
        }
        let mut j: usize = 0;
        while j < segs.len()
            invariant
                j <= segs.len(),
                out@ == join_rel(segs.deep_view().subrange(0, j as int)),
            decreases segs.len() - j,
        {
            proof {
                reveal_strlit("/");
                assert(segs.deep_view().subrange(0, j + 1).drop_last() =~= segs.deep_view().subrange(
                    0,
                    j as int,
                ));
                assert(segs.deep_view().subrange(0, j + 1).last() == segs.deep_view()[j as int]);
            }
            if j > 0 {
                out.append("/");
            }
            out.append(segs[j].as_str());
            proof {
                assert(out@ =~= join_rel(segs.deep_view().subrange(0, j + 1)));
            }
            j = j + 1;
        }
        proof {
            assert(segs.deep_view().subrange(0, segs.deep_view().len() as int) =~= segs.deep_view());
        }
        out
    }
}

/// A segment that can appear in a parsed path: nonempty, not `.`, and free of
/// separators.
pub open spec fn clean_seg(g: Seq<char>) -> bool {
    g.len() > 0 && g != dot() && !g.contains('/')
}

proof fn lemma_open_seg_no_sep(s: Seq<char>)
    ensures
        !open_seg(s).contains('/'),
        open_seg(s).len() <= s.len(),
    decreases s.len(),
{
    if s.len() == 0 {
    } else if s.last() == '/' {
        assert(open_seg(s) =~= Seq::empty());
    } else {
        lemma_open_seg_no_sep(s.drop_last());
        assert forall|k: int| 0 <= k < open_seg(s).len() implies open_seg(s)[k] != '/' by {
            if k < open_seg(s).len() - 1 {
                assert(open_seg(s)[k] == open_seg(s.drop_last())[k]);
                assert(!open_seg(s.drop_last()).contains('/'));
            }
        }
    }
}

proof fn lemma_closed_segs_clean(s: Seq<char>)
    ensures
        forall|j: int| 0 <= j < closed_segs(s).len() ==> clean_seg(#[trigger] closed_segs(s)[j]),
    decreases s.len(),
{
    if s.len() == 0 {
        assert(closed_segs(s).len() == 0);
    } else if s.last() == '/' {
        let p = s.drop_last();
        lemma_closed_segs_clean(p);
        lemma_open_seg_no_sep(p);
        if !keep_seg(open_seg(p)) {
            assert(closed_segs(s) == closed_segs(p));
        }
        if keep_seg(open_seg(p)) {
            assert(clean_seg(open_seg(p)));
            assert(closed_segs(s) == closed_segs(p).push(open_seg(p)));
            assert forall|j: int| 0 <= j < closed_segs(s).len() implies clean_seg(
                #[trigger] closed_segs(s)[j],
            ) by {
                if j < closed_segs(p).len() {
                    assert(closed_segs(s)[j] == closed_segs(p)[j]);
                } else {
                    assert(closed_segs(s)[j] == open_seg(p));
                }
            }
        }
    } else {
        lemma_closed_segs_clean(s.drop_last());
        assert(closed_segs(s) == closed_segs(s.drop_last()));
    }
}

/// Every parsed segment is clean.
proof fn lemma_segs_clean(s: Seq<char>)
    ensures
        forall|j: int| 0 <= j < segs_of(s).len() ==> clean_seg(#[trigger] segs_of(s)[j]),
{
    lemma_closed_segs_clean(s);
    lemma_open_seg_no_sep(s);
}

/// Folding keeps only clean segments and never leaves a `..` behind.
proof fn lemma_fold_clean(gs: Seq<Seq<char>>)
    requires
        forall|j: int| 0 <= j < gs.len() ==> clean_seg(#[trigger] gs[j]),
    ensures
        forall|j: int|
            0 <= j < fold_segs(gs).len() ==> clean_seg(#[trigger] fold_segs(gs)[j]) && fold_segs(
                gs,
            )[j] != dotdot(),
    decreases gs.len(),
{
    if gs.len() == 0 {
    } else {
        lemma_fold_clean(gs.drop_last());
        let pre = fold_segs(gs.drop_last());
        if gs.last() == dotdot() {
            if pre.len() > 0 {
                assert(forall|j: int|
                    0 <= j < pre.drop_last().len() ==> pre.drop_last()[j] == pre[j]);
            }
        } else {
            assert(clean_seg(gs.last()));
        }
    }
}

/// Folding a list with no `..` left in it changes nothing.
proof fn lemma_fold_folded(gs: Seq<Seq<char>>)
    requires
        forall|j: int| 0 <= j < gs.len() ==> #[trigger] gs[j] != dotdot(),
    ensures
        fold_segs(gs) == gs,
    decreases gs.len(),
{
    if gs.len() == 0 {
        assert(fold_segs(gs) =~= gs);
    } else {
        lemma_fold_folded(gs.drop_last());
        assert(fold_segs(gs) =~= gs);
    }
}

/// Appending separator-free text to a path extends its open segment and leaves
/// the closed ones alone.
proof fn lemma_append_seg(s: Seq<char>, g: Seq<char>)
    requires
        !g.contains('/'),
    ensures
        open_seg(s + g) == open_seg(s) + g,
        closed_segs(s + g) == closed_segs(s),
    decreases g.len(),
{
    if g.len() == 0 {
        assert(s + g =~= s);
        assert(open_seg(s) + g =~= open_seg(s));
    } else {
        let gd = g.drop_last();
        assert(!gd.contains('/')) by {
            assert(forall|k: int| 0 <= k < gd.len() ==> gd[k] == g[k]);
        }
        lemma_append_seg(s, gd);
        let t = s + gd;
        assert(g.last() != '/') by {
            assert(g[g.len() - 1] == g.last());
        }
        assert(s + g =~= t.push(g.last()));
        assert((t.push(g.last())).drop_last() =~= t);
        assert(open_seg(t.push(g.last())) == open_seg(t).push(g.last()));
        assert(open_seg(s) + g =~= (open_seg(s) + gd).push(g.last()));
    }
}

/// Parsing undoes an absolute join of clean segments.
proof fn lemma_parse_join_abs(gs: Seq<Seq<char>>)
    requires
        forall|j: int| 0 <= j < gs.len() ==> clean_seg(#[trigger] gs[j]),
    ensures
        segs_of(join_abs(gs)) == gs,
        open_seg(join_abs(gs)) == if gs.len() == 0 {
            Seq::<char>::empty()
        } else {
            gs.last()
        },
        gs.len() > 0 ==> join_abs(gs).len() > 0 && join_abs(gs)[0] == '/',
    decreases gs.len(),
{
    if gs.len() == 0 {
        assert(join_abs(gs) =~= Seq::<char>::empty());
        assert(segs_of(join_abs(gs)) =~= gs);
    } else {
        lemma_parse_join_abs(gs.drop_last());
        let pre = join_abs(gs.drop_last());
        let t = pre + seq!['/'];
        assert(t.last() == '/');
        assert(t.drop_last() =~= pre);
        assert(closed_segs(t) == segs_of(pre));
        assert(open_seg(t) =~= Seq::empty());
        lemma_append_seg(t, gs.last());
        assert(join_abs(gs) =~= t + gs.last());
        assert(open_seg(join_abs(gs)) =~= gs.last());
        assert(keep_seg(gs.last()));
        assert(segs_of(join_abs(gs)) =~= gs);
        assert(join_abs(gs)[0] == '/') by {
            if gs.len() == 1 {
                assert(pre.len() == 0);
                assert(join_abs(gs)[0] == t[0]);
            } else {
                assert(join_abs(gs)[0] == pre[0]);
            }
        }
    }
}

/// Parsing undoes a relative join of clean segments.
proof fn lemma_parse_join_rel(gs: Seq<Seq<char>>)
    requires
        forall|j: int| 0 <= j < gs.len() ==> clean_seg(#[trigger] gs[j]),
    ensures
        segs_of(join_rel(gs)) == gs,
        gs.len() > 0 ==> join_rel(gs).len() > 0 && join_rel(gs)[0] != '/',
    decreases gs.len(),
{
    if gs.len() == 0 {
        assert(segs_of(join_rel(gs)) =~= gs);
    } else if gs.len() == 1 {
        let g = gs[0];
        assert(join_rel(gs) == g);
        lemma_append_seg(Seq::empty(), g);
        assert(Seq::<char>::empty() + g =~= g);
        assert(open_seg(g) =~= g);
        assert(closed_segs(g) =~= Seq::<Seq<char>>::empty());
        assert(segs_of(join_rel(gs)) =~= gs);
        assert(g[0] != '/');
    } else {
        lemma_parse_join_rel(gs.drop_last());
        let pre = join_rel(gs.drop_last());
        let t = pre + seq!['/'];
        assert(t.last() == '/');
        assert(t.drop_last() =~= pre);
        assert(closed_segs(t) == segs_of(pre));
        assert(open_seg(t) =~= Seq::empty());
        lemma_append_seg(t, gs.last());
        assert(join_rel(gs) =~= t + gs.last());
        assert(open_seg(join_rel(gs)) =~= gs.last());
        assert(segs_of(join_rel(gs)) =~= gs);
        assert(join_rel(gs)[0] == pre[0]);
    }
}

/// Normalization is idempotent, and a normalized path never contains a `.`
/// segment, a leftover `..` segment, or an empty segment: the only `..`s a
/// path could keep are those that would pop past the root, and those are
/// dropped rather than kept.
pub proof fn lemma_normalize_idempotent(p: Seq<char>)
    ensures
        norm_str(norm_str(p)) == norm_str(p),
        forall|j: int|
            0 <= j < norm_segs(p).len() ==> #[trigger] norm_segs(p)[j] != dot() && norm_segs(p)[j]
                != dotdot() && norm_segs(p)[j].len() > 0,
{
    let gs = norm_segs(p);
    lemma_segs_clean(p);
    lemma_fold_clean(segs_of(p));
    lemma_fold_folded(gs);
    let q = norm_str(p);
    if is_abs(p) {
        if gs.len() == 0 {
            assert(q =~= seq!['/']);
            assert(q.last() == '/');
            let e = q.drop_last();
            assert(e =~= Seq::<char>::empty());
            assert(open_seg(e) == Seq::<char>::empty());
            assert(!keep_seg(open_seg(e)));
            assert(closed_segs(e) == Seq::<Seq<char>>::empty());
            assert(closed_segs(q) == closed_segs(e));
            assert(open_seg(q) =~= Seq::empty());
            assert(segs_of(q) =~= Seq::<Seq<char>>::empty());
            assert(is_abs(q));
            assert(norm_str(q) =~= q);
        } else {
            lemma_parse_join_abs(gs);
            assert(is_abs(q));
            assert(norm_segs(q) == gs);
        }
    } else {
        if gs.len() == 0 {
            assert(q =~= Seq::<char>::empty());
            assert(open_seg(q) =~= Seq::empty());
            assert(segs_of(q) =~= Seq::<Seq<char>>::empty());
            assert(!is_abs(q));
            assert(norm_str(q) =~= q);
        } else {
            lemma_parse_join_rel(gs);
            assert(!is_abs(q));
            assert(norm_segs(q) == gs);
        }
    }
}

/// Converts a string received from a host runtime into a path. On this
/// Unix-style layout the text already is the path.
pub fn wasm_string_to_path(path: String) -> (r: String)
    ensures
        r@ == path@,
{
    path
}

/// Converts a path into the string a host runtime expects. On this
/// Unix-style layout the path already is the text.
pub fn wasm_path_to_str(path: &str) -> (r: &str)
    ensures
        r@ == path@,
{
    path
}

/// Strips a platform's verbatim prefix from a path. On this Unix-style
/// layout there is none to strip.
pub fn strip_unc_prefix(path: String) -> (r: String)
    ensures
        r@ == path@,
{
    path
}

/// Normalizes all components of a path: `.` is dropped, `..` collapses the
/// component before it (collapsing past the root is a no-op), and separators
/// are deduplicated. Symlinks are not consulted; this is purely lexical.
pub fn normalize_path(path: &str) -> (r: String)
    ensures
        r@ == norm_str(path@),
{
    let abs = is_abs_path(path);
    let segs = parse_segs(path);
    let folded = fold_segs_vec(segs);
    join_segs(abs, &folded)
}

} // verus!
