//! The in-memory system: a tree root, a file store, a working directory,
//! environment variables, and the deterministic clock and random generator,
//! bundled behind the public file-system operations.
//!
//! The whole state is one exclusively owned value: operations that change it
//! take the system by `&mut`, lookups take it by `&`. Contracts speak about
//! the ghost mirrors of the tree and the file store.

use vstd::prelude::*;
use vstd::string::StrSliceExecFns;
use vstd::string::StringExecFns;

use crate::edit::create_dirs_at;
use crate::edit::dir_entries_at;
use crate::edit::dirs_blocked;
use crate::edit::dirs_entries;
use crate::edit::dirs_ok;
use crate::edit::put_child;
use crate::edit::put_child_at;
use crate::edit::remove_child;
use crate::edit::remove_child_at;
use crate::edit::with_dirs;
use crate::error::FsError;
use crate::host::os_random_fill;
use crate::host::wall_clock_millis;
use crate::lookup::comps_to_string;
use crate::lookup::info_matches;
use crate::lookup::lemma_resolve_found_wf;
use crate::lookup::path_str_of_comps;
use crate::lookup::resolve_at;
use crate::lookup::resolve_follow;
use crate::lookup::resolves_to;
use crate::lookup::NodeInfo;
use crate::lookup::ResolveOk;
use crate::lookup::ResolveSpec;
use crate::node::entries_view;
use crate::node::entries_wf;
use crate::node::files_view;
use crate::node::idx_of;
use crate::node::lemma_entries_view;
use crate::node::lemma_entries_wf_grow;
use crate::node::node_view;
use crate::node::nv_name;
use crate::node::nv_wf;
use crate::node::FileData;
use crate::node::FileDataV;
use crate::node::Node;
use crate::node::NodeV;
use crate::options::FileType;
use crate::path::fold_segs;
use crate::path::fold_segs_vec;
use crate::path::is_abs;
use crate::path::is_abs_path;
use crate::path::lemma_normalize_idempotent;

use crate::path::norm_str;
use crate::path::normalize_path;
use crate::path::parse_segs;
use crate::path::segs_of;

verus! {

/// The absolute, folded components of a path against a working directory: a
/// leading empty component marks the root, a relative path is folded against
/// the working directory's segments.
pub open spec fn abs_comps_spec(cwd: Seq<char>, p: Seq<char>) -> Seq<Seq<char>> {
    if is_abs(p) {
        seq![Seq::<char>::empty()] + fold_segs(segs_of(p))
    } else {
        seq![Seq::<char>::empty()] + fold_segs(segs_of(cwd) + segs_of(p))
    }
}

/// The components of a path taken as written: not absolutized, not folded.
pub open spec fn raw_comps_spec(p: Seq<char>) -> Seq<Seq<char>> {
    if is_abs(p) {
        seq![Seq::<char>::empty()] + segs_of(p)
    } else {
        segs_of(p)
    }
}

/// The environment, mirrored as a sequence of key-value pairs.
pub open spec fn env_unique(es: Seq<(Seq<char>, Seq<char>)>) -> bool {
    forall|i: int, j: int| 0 <= i < j < es.len() ==> (#[trigger] es[i]).0 != (#[trigger] es[j]).0
}

/// The in-memory system.
pub struct InMemorySys {
    root: Vec<Node>,
    files: Vec<FileData>,
    cwd: String,
    envs: Vec<(String, String)>,
    random_seed: Option<u64>,
    time: Option<u64>,
    thread_sleep_enabled: bool,
}

impl InMemorySys {
    /// The mirror of the tree's root entries.
    pub closed spec fn tree(&self) -> Seq<NodeV> {
        entries_view(self.root@)
    }

    /// The mirror of the file store.
    pub closed spec fn store(&self) -> Seq<FileDataV> {
        files_view(self.files@)
    }

    /// The working directory.
    pub closed spec fn cwd_view(&self) -> Seq<char> {
        self.cwd@
    }

    /// The environment, as key-value pairs in insertion order.
    pub closed spec fn envs_view(&self) -> Seq<(Seq<char>, Seq<char>)> {
        Seq::new(self.envs@.len(), |i: int| (self.envs@[i].0@, self.envs@[i].1@))
    }

    /// The seed of the deterministic random generator, if one is set.
    pub closed spec fn seed_view(&self) -> Option<u64> {
        self.random_seed
    }

    /// The fixed clock, if one is set.
    pub closed spec fn time_view(&self) -> Option<u64> {
        self.time
    }

    /// Whether sleeping is enabled.
    pub closed spec fn sleep_enabled(&self) -> bool {
        self.thread_sleep_enabled
    }

    /// Well-formedness: the tree is sorted and points into the file store,
    /// the working directory is a normalized absolute path, and environment
    /// keys are unique.
    pub open spec fn wf(&self) -> bool {
        &&& entries_wf(self.tree(), self.store().len() as nat)
        &&& crate::node::ids_unique(self.tree())
        &&& is_abs(self.cwd_view())
        &&& self.cwd_view() == norm_str(self.cwd_view())
        &&& env_unique(self.envs_view())
    }

    /// Everything but the tree and the file store is unchanged.
    pub open spec fn same_config(&self, old: &Self) -> bool {
        &&& self.cwd_view() == old.cwd_view()
        &&& self.envs_view() == old.envs_view()
        &&& self.seed_view() == old.seed_view()
        &&& self.time_view() == old.time_view()
        &&& self.sleep_enabled() == old.sleep_enabled()
    }

    /// A fresh, empty system: no roots, no files, the working directory at
    /// the root, the real clock and entropy source active, sleeping enabled.
    pub fn new() -> (r: Self)
        ensures
            r.wf(),
            r.tree() == Seq::<NodeV>::empty(),
            r.store() == Seq::<FileDataV>::empty(),
            r.cwd_view() == seq!['/'],
            r.envs_view() == Seq::<(Seq<char>, Seq<char>)>::empty(),
            r.seed_view() == Option::<u64>::None,
            r.time_view() == Option::<u64>::None,
            r.sleep_enabled(),
    {
        proof {
            reveal_strlit("/");
        }
        let r = InMemorySys {
            root: Vec::new(),
            files: Vec::new(),
            cwd: String::from_str("/"),
            envs: Vec::new(),
            random_seed: None,
            time: None,
            thread_sleep_enabled: true,
        };
        proof {
            assert(r.tree() =~= Seq::<NodeV>::empty());
            assert(r.store() =~= Seq::<FileDataV>::empty());
            assert(r.envs_view() =~= Seq::<(Seq<char>, Seq<char>)>::empty());
            assert(r.cwd_view() =~= seq!['/']);
            lemma_normalize_idempotent(r.cwd_view());
            assert(is_abs(r.cwd_view()));
            let s = r.cwd_view();
            assert(s.last() == '/');
            let e = s.drop_last();
            assert(e =~= Seq::<char>::empty());
            assert(crate::path::open_seg(s) =~= Seq::<char>::empty());
            assert(crate::path::closed_segs(e) == Seq::<Seq<char>>::empty());
            assert(crate::path::closed_segs(s) == Seq::<Seq<char>>::empty());
            assert(segs_of(s) =~= Seq::<Seq<char>>::empty());
            assert(fold_segs(segs_of(s)) =~= Seq::<Seq<char>>::empty());
            assert(norm_str(s) == s);
        }
        r
    }

    /// Sets or clears the seed of the deterministic random generator.
    pub fn set_seed(&mut self, seed: Option<u64>)
        requires
            old(self).wf(),
        ensures
            final(self).wf(),
            final(self).seed_view() == seed,
            final(self).tree() == old(self).tree(),
            final(self).store() == old(self).store(),
            final(self).cwd_view() == old(self).cwd_view(),
            final(self).envs_view() == old(self).envs_view(),
            final(self).time_view() == old(self).time_view(),
            final(self).sleep_enabled() == old(self).sleep_enabled(),
    {
        self.random_seed = seed;
    }

    /// Fixes or releases the clock, in milliseconds.
    pub fn set_time(&mut self, time: Option<u64>)
        requires
            old(self).wf(),
        ensures
            final(self).wf(),
            final(self).time_view() == time,
            final(self).tree() == old(self).tree(),
            final(self).store() == old(self).store(),
            final(self).cwd_view() == old(self).cwd_view(),
            final(self).envs_view() == old(self).envs_view(),
            final(self).seed_view() == old(self).seed_view(),
            final(self).sleep_enabled() == old(self).sleep_enabled(),
    {
        self.time = time;
    }

    /// Makes thread sleeping a no-op.
    pub fn disable_thread_sleep(&mut self)
        requires
            old(self).wf(),
        ensures
            final(self).wf(),
            !final(self).sleep_enabled(),
            final(self).tree() == old(self).tree(),
            final(self).store() == old(self).store(),
            final(self).cwd_view() == old(self).cwd_view(),
            final(self).envs_view() == old(self).envs_view(),
            final(self).seed_view() == old(self).seed_view(),
            final(self).time_view() == old(self).time_view(),
    {
        self.thread_sleep_enabled = false;
    }

    /// Whether thread sleeping is still enabled. The decision of how long to
    /// sleep lives here; performing the sleep is the caller's business.
    pub fn thread_sleep_enabled(&self) -> (r: bool)
        ensures
            r == self.sleep_enabled(),
    {
        self.thread_sleep_enabled
    }

    /// The milliseconds a sleep request should actually sleep: the requested
    /// time, or nothing when sleeping is disabled.
    pub fn thread_sleep_millis(&self, millis: u64) -> (r: u64)
        ensures
            r == if self.sleep_enabled() {
                millis
            } else {
                0
            },
    {
        if self.thread_sleep_enabled {
            millis
        } else {
            0
        }
    }

    /// The current instant of the active clock: the fixed instant if one is
    /// set, the wall clock otherwise.
    pub fn sys_time_now(&self) -> (r: u64)
        ensures
            self.time_view() matches Some(t) ==> r == t,
    {
        match self.time {
            Some(t) => t,
            None => wall_clock_millis(),
        }
    }

    /// The absolute, folded components of a path against the working
    /// directory.
    pub fn abs_comps(&self, path: &str) -> (r: Vec<String>)
        requires
            self.wf(),
        ensures
            r.deep_view() == abs_comps_spec(self.cwd_view(), path@),
            r.deep_view().len() > 0,
            r.deep_view()[0].len() == 0,
    {
        let segs = if is_abs_path(path) {
            parse_segs(path)
        } else {
            let mut cs = parse_segs(self.cwd.as_str());
            let ghost cs0 = cs@;
            let ghost csv = cs.deep_view();
            proof {
                crate::lookup::lemma_comps_view(&cs);
            }
            let ps = parse_segs(path);
            let ghost ps0 = ps@;
            let ghost psv = ps.deep_view();
            proof {
                crate::lookup::lemma_comps_view(&ps);
            }
            let mut rest = ps;
            cs.append(&mut rest);
            proof {
                crate::lookup::lemma_comps_view(&cs);
                assert forall|k: int| 0 <= k < cs@.len() implies cs.deep_view()[k] == (segs_of(
                    self.cwd_view(),
                ) + segs_of(path@))[k] by {
                    if k < cs0.len() {
                        assert(cs@[k] == cs0[k]);
                        assert(cs@[k]@ == csv[k]);
                    } else {
                        assert(cs@[k] == ps0[k - cs0.len()]);
                        assert(cs@[k]@ == psv[k - cs0.len()]);
                    }
                }
                assert(cs.deep_view() =~= segs_of(self.cwd_view()) + segs_of(path@));
            }
            cs
        };
        let folded = fold_segs_vec(segs);
        let ghost fv = folded.deep_view();
        let ghost folded0 = folded@;
        proof {
            crate::lookup::lemma_comps_view(&folded);
        }
        let mut out: Vec<String> = Vec::new();
        out.push(String::new());
        let mut rest = folded;
        out.append(&mut rest);
        proof {
            crate::lookup::lemma_comps_view(&out);
            let target = abs_comps_spec(self.cwd_view(), path@);
            assert forall|k: int| 0 <= k < out@.len() implies out.deep_view()[k] == target[k] by {
                if k == 0 {
                    assert(out@[0]@ =~= Seq::<char>::empty());
                } else {
                    assert(out@[k] == folded0[k - 1]);
                    assert(out@[k]@ == fv[k - 1]);
                }
            }
            assert(out.deep_view() =~= target);
        }
        out
    }

    /// The components of a path taken as written.
    pub fn raw_comps(&self, path: &str) -> (r: Vec<String>)
        ensures
            r.deep_view() == raw_comps_spec(path@),
    {
        let segs = parse_segs(path);
        if is_abs_path(path) {
            let ghost sv = segs.deep_view();
            let ghost segs0 = segs@;
            proof {
                crate::lookup::lemma_comps_view(&segs);
            }
            let mut out: Vec<String> = Vec::new();
            out.push(String::new());
            let mut rest = segs;
            out.append(&mut rest);
            proof {
                crate::lookup::lemma_comps_view(&out);
                let target = raw_comps_spec(path@);
                assert forall|k: int| 0 <= k < out@.len() implies out.deep_view()[k]
                    == target[k] by {
                    if k == 0 {
                        assert(out@[0]@ =~= Seq::<char>::empty());
                    } else {
                        assert(out@[k] == segs0[k - 1]);
                        assert(out@[k]@ == sv[k - 1]);
                    }
                }
                assert(out.deep_view() =~= target);
            }
            out
        } else {
            segs
        }
    }

    /// Resolves a path to its canonical absolute form, following symlinks.
    pub fn base_fs_canonicalize(&self, path: &str) -> (r: Result<String, FsError>)
        requires
            self.wf(),
        ensures
            canonicalize_matches(r, self.tree(), abs_comps_spec(self.cwd_view(), path@)),
    {
        let comps = self.abs_comps(path);
        let ghost cspec = comps.deep_view();
        match resolve_follow(&self.root, comps, Ghost(self.store().len() as nat)) {
            Ok(ResolveOk::Found { comps: c, info }) => {
                let s = comps_to_string(&c);
                Ok(s)
            },
            Ok(ResolveOk::NotFound { comps: c }) => Err(FsError::NotFound),
            Err(e) => Err(e),
        }
    }

    /// Resolves a path to its canonical absolute form, following symlinks.
    pub fn fs_canonicalize(&self, path: &str) -> (r: Result<String, FsError>)
        requires
            self.wf(),
        ensures
            canonicalize_matches(r, self.tree(), abs_comps_spec(self.cwd_view(), path@)),
    {
        self.base_fs_canonicalize(path)
    }

    /// Creates every missing directory component of the path. Succeeds
    /// silently when the path already is a directory; fails when an existing
    /// component is a file or symlink, leaving the tree untouched.
    pub fn fs_create_dir_all(&mut self, path: &str) -> (r: Result<(), FsError>)
        requires
            old(self).wf(),
        ensures
            final(self).wf(),
            final(self).store() == old(self).store(),
            final(self).same_config(old(self)),
            exists|now: u64|
                #[trigger] stamp(now, old(self).time_view()) && create_all_matches(
                    r,
                    old(self).tree(),
                    final(self).tree(),
                    abs_comps_spec(old(self).cwd_view(), path@),
                    now,
                ),
    {
        let now = self.sys_time_now();
        let comps = self.abs_comps(path);
        proof {
            assert(stamp(now, old(self).time_view()));
        }
        self.create_all_at(comps, now)
    }

    /// Creates every missing directory along the given components at the
    /// given instant.
    fn create_all_at(&mut self, comps: Vec<String>, now: u64) -> (r: Result<(), FsError>)
        requires
            old(self).wf(),
        ensures
            final(self).wf(),
            final(self).store() == old(self).store(),
            final(self).same_config(old(self)),
            create_all_matches(r, old(self).tree(), final(self).tree(), comps.deep_view(), now),
    {
        let ghost cspec = comps.deep_view();
        let ghost tree0 = self.tree();
        let ghost nfiles = self.store().len() as nat;
        let target = match resolve_follow(&self.root, comps, Ghost(nfiles)) {
            Ok(ResolveOk::Found { comps: c, info: _ }) => c,
            Ok(ResolveOk::NotFound { comps: c }) => c,
            Err(e) => {
                return Err(e);
            },
        };
        proof {
            assert(resolved_target(tree0, cspec, target.deep_view()));
        }
        if crate::edit::blocked_at(&self.root, &target, 0, Ghost(nfiles)) {
            return Err(FsError::LeadsIntoFile);
        }
        let mut tmp: Vec<Node> = Vec::new();
        core::mem::swap(&mut self.root, &mut tmp);
        let newroot = create_dirs_at(tmp, &target, 0, now, Ghost(nfiles));
        self.root = newroot;
        proof {
            assert(resolved_target(tree0, cspec, target.deep_view()) && !dirs_blocked(
                tree0,
                target.deep_view(),
                0,
            ) && self.tree() == with_dirs(tree0, target.deep_view(), 0, now));
            assert(create_all_matches(Ok::<(), FsError>(()), tree0, self.tree(), cspec, now));
            assert forall|fid: int| crate::node::id_count(self.tree(), fid) <= 1 by {
                crate::edit::lemma_with_dirs_id(tree0, target.deep_view(), 0, now, fid);
            }
            assert(crate::node::ids_unique(self.tree()));
        }
        Ok(())
    }

    /// Creates one directory, or the whole chain when the options say
    /// recursive. The non-recursive form demands an existing parent and a
    /// free name.
    pub fn base_fs_create_dir(&mut self, path: &str, options: &crate::options::CreateDirOptions) -> (r:
        Result<(), FsError>)
        requires
            old(self).wf(),
        ensures
            final(self).wf(),
            final(self).store() == old(self).store(),
            final(self).same_config(old(self)),
            !r.is_ok() ==> final(self).tree() == old(self).tree(),
            exists|now: u64|
                #[trigger] stamp(now, old(self).time_view()) && if options.recursive {
                    create_all_matches(
                        r,
                        old(self).tree(),
                        final(self).tree(),
                        abs_comps_spec(old(self).cwd_view(), path@),
                        now,
                    )
                } else {
                    create_one_matches(
                        r,
                        old(self).tree(),
                        final(self).tree(),
                        abs_comps_spec(old(self).cwd_view(), path@),
                        now,
                    )
                },
    {
        if options.recursive {
            let r = self.fs_create_dir_all(path);
            return r;
        }
        let now = self.sys_time_now();
        let ghost tree0 = self.tree();
        let ghost comps0 = abs_comps_spec(self.cwd_view(), path@);
        let comps = self.abs_comps(path);
        let ghost nfiles = self.store().len() as nat;
        if comps.len() < 2 {
            proof {
                assert(stamp(now, old(self).time_view()));
            }
            return Err(FsError::InvalidRootPath);
        }
        let ghost parentv = comps0.drop_last();
        let mut parent = comps;
        let name = match parent.pop() {
            Some(n) => n,
            None => {
                proof {
                    assert(false);
                }
                return Err(FsError::InvalidRootPath);
            },
        };
        proof {
            crate::lookup::lemma_comps_view(&parent);
            assert(parent.deep_view() =~= parentv);
            assert(name@ == comps0.last());
        }
        let (pc, parent_info) = match resolve_follow(&self.root, parent, Ghost(nfiles)) {
            Ok(ResolveOk::Found { comps: c, info }) => (c, info),
            Ok(ResolveOk::NotFound { comps: nf }) => {
                proof {
                    assert(stamp(now, old(self).time_view()));
                    assert(resolves_to(
                        tree0,
                        parentv,
                        ResolveSpec::NotFound { comps: nf.deep_view() },
                    ));
                }
                return Err(FsError::NotFound);
            },
            Err(e) => {
                proof {
                    assert(stamp(now, old(self).time_view()));
                }
                return Err(e);
            },
        };
        let ghost pcv = pc.deep_view();
        let ghost dn = choose|node: NodeV|
            resolves_to(tree0, parentv, ResolveSpec::Found { comps: pcv, node })
                && #[trigger] info_matches(parent_info, node);
        proof {
            assert(resolves_to(tree0, parentv, ResolveSpec::Found { comps: pcv, node: dn }));
        }
        let taken = match self.stat_child(&pc, name.as_str()) {
            Some(ChildStat::Missing) => false,
            Some(_) => true,
            None => {
                proof {
                    assert(stamp(now, old(self).time_view()));
                }
                return Err(FsError::LeadsIntoFile);
            },
        };
        proof {
            crate::node::lemma_idx_of(dirs_entries(tree0, pcv, 0), name@);
        }
        if taken {
            proof {
                assert(stamp(now, old(self).time_view()));
            }
            return Err(FsError::AlreadyExists);
        }
        let node = Node::Dir { name, created: now, modified: now, entries: Vec::new() };
        proof {
            assert(entries_view(Seq::<Node>::empty()) =~= Seq::<NodeV>::empty());
        }
        let mut tmp: Vec<Node> = Vec::new();
        core::mem::swap(&mut self.root, &mut tmp);
        let newroot = put_child_at(tmp, &pc, 0, node, Ghost(nfiles));
        self.root = newroot;
        proof {
            assert(self.tree() == put_child(
                tree0,
                pcv,
                0,
                NodeV::Dir {
                    name: comps0.last(),
                    created: now,
                    modified: now,
                    entries: Seq::empty(),
                },
            ));
            assert(stamp(now, old(self).time_view()));
            assert(create_one_matches(Ok::<(), FsError>(()), tree0, self.tree(), comps0, now));
            let nd = NodeV::Dir {
                name: comps0.last(),
                created: now,
                modified: now,
                entries: Seq::empty(),
            };
            assert forall|fid: int| crate::node::id_count(self.tree(), fid) <= 1 by {
                crate::edit::lemma_put_child_id(tree0, pcv, 0, nd, fid);
                assert(crate::node::node_id_count(nd, fid) == 0);
            }
            assert(crate::node::ids_unique(self.tree()));
        }
        Ok(())
    }

    /// Creates one directory with the given options.
    pub fn fs_create_dir(&mut self, path: &str, options: &crate::options::CreateDirOptions) -> (r:
        Result<(), FsError>)
        requires
            old(self).wf(),
        ensures
            final(self).wf(),
            final(self).store() == old(self).store(),
            final(self).same_config(old(self)),
            !r.is_ok() ==> final(self).tree() == old(self).tree(),
            exists|now: u64|
                #[trigger] stamp(now, old(self).time_view()) && if options.recursive {
                    create_all_matches(
                        r,
                        old(self).tree(),
                        final(self).tree(),
                        abs_comps_spec(old(self).cwd_view(), path@),
                        now,
                    )
                } else {
                    create_one_matches(
                        r,
                        old(self).tree(),
                        final(self).tree(),
                        abs_comps_spec(old(self).cwd_view(), path@),
                        now,
                    )
                },
    {
        self.base_fs_create_dir(path, options)
    }

    /// The metadata of the entry a path resolves to, following symlinks.
    pub fn base_fs_metadata(&self, path: &str) -> (r: Result<InMemoryMetadata, FsError>)
        requires
            self.wf(),
        ensures
            metadata_matches(r, self.tree(), self.store(), raw_comps_spec(path@)),
    {
        let comps = self.raw_comps(path);
        let ghost cv = comps.deep_view();
        let ghost nfiles = self.store().len() as nat;
        match resolve_follow(&self.root, comps, Ghost(nfiles)) {
            Ok(ResolveOk::Found { comps: c, info }) => {
                proof {
                    let node = choose|node: NodeV|
                        resolves_to(
                            self.tree(),
                            cv,
                            ResolveSpec::Found { comps: c.deep_view(), node },
                        ) && #[trigger] info_matches(info, node);
                    let k = choose|k: nat|
                        resolve_at(self.tree(), cv, Seq::empty(), k) == (ResolveSpec::Found {
                            comps: c.deep_view(),
                            node,
                        });
                    lemma_resolve_found_wf(self.tree(), cv, Seq::empty(), k, nfiles);
                }
                match info {
                    NodeInfo::File { file_id } => Ok(
                        InMemoryMetadata {
                            file_type: FileType::File,
                            modified: self.files[file_id].modified,
                        },
                    ),
                    NodeInfo::Dir { modified } => Ok(
                        InMemoryMetadata { file_type: FileType::Dir, modified },
                    ),
                    NodeInfo::Symlink { modified } => Ok(
                        InMemoryMetadata { file_type: FileType::Symlink, modified },
                    ),
                }
            },
            Ok(ResolveOk::NotFound { comps: _ }) => Err(FsError::NotFound),
            Err(e) => Err(e),
        }
    }

    /// The metadata of the entry a path resolves to, following symlinks.
    pub fn fs_metadata(&self, path: &str) -> (r: Result<InMemoryMetadata, FsError>)
        requires
            self.wf(),
        ensures
            metadata_matches(r, self.tree(), self.store(), raw_comps_spec(path@)),
    {
        self.base_fs_metadata(path)
    }

    /// The metadata of the entry a path names, not following a final — or
    /// any — symlink: the walk stops at the first symlink it meets.
    pub fn base_fs_symlink_metadata(&self, path: &str) -> (r: Result<InMemoryMetadata, FsError>)
        requires
            self.wf(),
        ensures
            symlink_metadata_matches(r, self.tree(), self.store(), raw_comps_spec(path@)),
    {
        let comps = self.raw_comps(path);
        let ghost cv = comps.deep_view();
        let ghost nfiles = self.store().len() as nat;
        if comps.len() == 0 {
            return Err(FsError::EmptyPath);
        }
        let step = crate::lookup::lookup_nf_exec(&self.root, &comps, 0, Ghost(nfiles));
        match step {
            crate::lookup::LookupStep::NotFound => Err(FsError::NotFound),
            crate::lookup::LookupStep::IntoFile => Err(FsError::LeadsIntoFile),
            crate::lookup::LookupStep::Link { depth: _, target: _, modified } => Ok(
                InMemoryMetadata { file_type: FileType::Symlink, modified },
            ),
            crate::lookup::LookupStep::Found { info } => {
                proof {
                    crate::lookup::lemma_lookup_nf_wf(self.tree(), cv, 0, nfiles);
                }
                match info {
                    NodeInfo::File { file_id } => Ok(
                        InMemoryMetadata {
                            file_type: FileType::File,
                            modified: self.files[file_id].modified,
                        },
                    ),
                    NodeInfo::Dir { modified } => Ok(
                        InMemoryMetadata { file_type: FileType::Dir, modified },
                    ),
                    NodeInfo::Symlink { modified } => Ok(
                        InMemoryMetadata { file_type: FileType::Symlink, modified },
                    ),
                }
            },
        }
    }

    /// The metadata of the entry a path names, not following symlinks.
    pub fn fs_symlink_metadata(&self, path: &str) -> (r: Result<InMemoryMetadata, FsError>)
        requires
            self.wf(),
        ensures
            symlink_metadata_matches(r, self.tree(), self.store(), raw_comps_spec(path@)),
    {
        self.base_fs_symlink_metadata(path)
    }

    /// Whether a path names an existing entry, symlinks not followed; a
    /// missing or empty path is `false`, a walk into a file is reported.
    pub fn base_fs_exists(&self, path: &str) -> (r: Result<bool, FsError>)
        requires
            self.wf(),
        ensures
            exists_outcome(r, self.tree(), raw_comps_spec(path@)),
    {
        match self.base_fs_symlink_metadata(path) {
            Ok(_) => Ok(true),
            Err(e) => {
                if matches!(e, FsError::NotFound | FsError::EmptyPath) {
                    Ok(false)
                } else {
                    Err(e)
                }
            },
        }
    }

    /// Whether a path names an existing entry, any failure collapsed to
    /// `false`: the one reportable failure, a walk into a file, is a case
    /// where nothing exists at the path either.
    pub fn base_fs_exists_no_err(&self, path: &str) -> (r: bool)
        requires
            self.wf(),
        ensures
            r == exists_spec(self.tree(), raw_comps_spec(path@)),
    {
        match self.base_fs_exists(path) {
            Ok(b) => b,
            Err(_) => false,
        }
    }

    /// Whether a path names an existing entry.
    pub fn fs_exists(&self, path: &str) -> (r: Result<bool, FsError>)
        requires
            self.wf(),
        ensures
            exists_outcome(r, self.tree(), raw_comps_spec(path@)),
    {
        self.base_fs_exists(path)
    }

    /// Whether a path names an existing entry, any failure collapsed to
    /// `false`.
    pub fn fs_exists_no_err(&self, path: &str) -> (r: bool)
        requires
            self.wf(),
        ensures
            r == exists_spec(self.tree(), raw_comps_spec(path@)),
    {
        self.base_fs_exists_no_err(path)
    }

    /// Whether a path resolves to a file; a path that does not resolve
    /// reports its resolution failure rather than answering.
    pub fn fs_is_file(&self, path: &str) -> (r: Result<bool, FsError>)
        requires
            self.wf(),
        ensures
            is_kind_outcome(r, self.tree(), self.store(), raw_comps_spec(path@), FileType::File),
    {
        match self.fs_metadata(path) {
            Ok(md) => Ok(matches!(md.file_type, FileType::File)),
            Err(e) => Err(e),
        }
    }

    /// Whether a path resolves to a file, any failure collapsed to `false`.
    pub fn fs_is_file_no_err(&self, path: &str) -> (r: bool)
        requires
            self.wf(),
        ensures
            exists|rr: Result<bool, FsError>|
                #[trigger] is_kind_outcome(
                    rr,
                    self.tree(),
                    self.store(),
                    raw_comps_spec(path@),
                    FileType::File,
                ) && r == (rr == Ok::<bool, FsError>(true)),
    {
        let rr = self.fs_is_file(path);
        let ghost rrv = rr;
        match rr {
            Ok(b) => b,
            Err(_) => false,
        }
    }

    /// Whether a path resolves to a directory; a path that does not resolve
    /// reports its resolution failure rather than answering.
    pub fn fs_is_dir(&self, path: &str) -> (r: Result<bool, FsError>)
        requires
            self.wf(),
        ensures
            is_kind_outcome(r, self.tree(), self.store(), raw_comps_spec(path@), FileType::Dir),
    {
        match self.fs_metadata(path) {
            Ok(md) => Ok(matches!(md.file_type, FileType::Dir)),
            Err(e) => Err(e),
        }
    }

    /// Whether a path resolves to a directory, any failure collapsed to
    /// `false`.
    pub fn fs_is_dir_no_err(&self, path: &str) -> (r: bool)
        requires
            self.wf(),
        ensures
            exists|rr: Result<bool, FsError>|
                #[trigger] is_kind_outcome(
                    rr,
                    self.tree(),
                    self.store(),
                    raw_comps_spec(path@),
                    FileType::Dir,
                ) && r == (rr == Ok::<bool, FsError>(true)),
    {
        let rr = self.fs_is_dir(path);
        match rr {
            Ok(b) => b,
            Err(_) => false,
        }
    }

    /// Whether a path names a symlink, symlinks not followed: exactly
    /// whether the single walk of the path stops at one.
    pub fn fs_is_symlink(&self, path: &str) -> (r: Result<bool, FsError>)
        requires
            self.wf(),
        ensures
            is_symlink_outcome(r, self.tree(), self.store(), raw_comps_spec(path@)),
    {
        match self.fs_symlink_metadata(path) {
            Ok(md) => Ok(matches!(md.file_type, FileType::Symlink)),
            Err(e) => Err(e),
        }
    }

    /// Whether a path names a symlink, any failure collapsed to `false`.
    pub fn fs_is_symlink_no_err(&self, path: &str) -> (r: bool)
        requires
            self.wf(),
        ensures
            r == (raw_comps_spec(path@).len() > 0 && crate::lookup::lookup_nf(
                self.tree(),
                raw_comps_spec(path@),
                0,
            ) matches crate::lookup::LookupNF::Link { .. }),
    {
        let rr = self.fs_is_symlink(path);
        proof {
            let comps = raw_comps_spec(path@);
            if comps.len() > 0 && crate::lookup::lookup_nf(self.tree(), comps, 0)
                matches crate::lookup::LookupNF::Found { .. } {
                crate::lookup::lemma_lookup_found_not_symlink(self.tree(), comps, 0);
            }
        }
        match rr {
            Ok(b) => b,
            Err(_) => false,
        }
    }

    /// What the directory at `pc` holds under `name`.
    fn stat_child(&self, pc: &Vec<String>, name: &str) -> (r: Option<ChildStat>)
        requires
            self.wf(),
        ensures
            match r {
                Some(st) => dirs_ok(self.tree(), pc.deep_view(), 0) && child_stat_matches(
                    st,
                    dirs_entries(self.tree(), pc.deep_view(), 0),
                    name@,
                ) && (st matches ChildStat::FileAt { file_id } ==> file_id < self.store().len()),
                None => !dirs_ok(self.tree(), pc.deep_view(), 0),
            },
    {
        let ghost nfiles = self.store().len() as nat;
        let entries = match dir_entries_at(&self.root, pc, 0, Ghost(nfiles)) {
            Some(es) => es,
            None => {
                return None;
            },
        };
        let ghost p = dirs_entries(self.tree(), pc.deep_view(), 0);
        let found = crate::node::find_entry(entries, name);
        proof {
            crate::node::lemma_find_entry_view(entries@, name@, found);
            lemma_entries_view(entries@);
        }
        match found {
            None => Some(ChildStat::Missing),
            Some(k) => {
                proof {
                    assert(p[k as int] == node_view(entries@[k as int]));
                    assert(nv_wf(p[k as int], nfiles));
                }
                match &entries[k] {
                    Node::File { file_id, .. } => Some(ChildStat::FileAt { file_id: *file_id }),
                    Node::Dir { .. } => Some(ChildStat::DirAt),
                    Node::Symlink { .. } => Some(ChildStat::LinkAt),
                }
            },
        }
    }

    /// Opens a file at the path, after resolving its parent directory
    /// through symlinks. An existing file is refused under `create_new`,
    /// cleared at open time under `truncate`, and the handle's cursor starts
    /// at the content length under `append` and at zero otherwise. An absent
    /// name demands `create`, which makes an empty file carrying `mode`. A
    /// directory or symlink under the final name is refused.
    fn open_at(&mut self, path: &str, options: &crate::options::OpenOptions, now: u64) -> (r:
        Result<InMemoryFile, FsError>)
        requires
            old(self).wf(),
        ensures
            final(self).wf(),
            final(self).same_config(old(self)),
            !r.is_ok() ==> final(self).tree() == old(self).tree() && final(self).store() == old(
                self,
            ).store(),
            open_matches(
                r,
                old(self).tree(),
                old(self).store(),
                final(self).tree(),
                final(self).store(),
                abs_comps_spec(old(self).cwd_view(), path@),
                *options,
                now,
            ),
            r matches Ok(h) ==> 0 <= h.id_view() < final(self).store().len()
                && final(self).store().len() >= old(self).store().len(),
    {
        let comps = self.abs_comps(path);
        let ghost comps0 = comps.deep_view();
        let ghost tree0 = self.tree();
        let ghost store0 = self.store();
        let ghost nfiles = self.store().len() as nat;
        if comps.len() < 2 {
            proof {
                assert(comps0.len() < 2);
                assert(open_matches(
                    Err::<InMemoryFile, FsError>(FsError::InvalidRootPath),
                    tree0,
                    store0,
                    tree0,
                    store0,
                    comps0,
                    *options,
                    now,
                ));
            }
            return Err(FsError::InvalidRootPath);
        }
        let ghost parentv = comps0.drop_last();
        let mut parent = comps;
        let name = match parent.pop() {
            Some(n) => n,
            None => {
                proof {
                    assert(false);
                }
                return Err(FsError::InvalidRootPath);
            },
        };
        let ghost namev = name@;
        proof {
            crate::lookup::lemma_comps_view(&parent);
            assert(parent.deep_view() =~= parentv);
            assert(namev == comps0.last());
        }
        let (pc, parent_info) = match resolve_follow(&self.root, parent, Ghost(nfiles)) {
            Ok(ResolveOk::Found { comps: c, info }) => (c, info),
            Ok(ResolveOk::NotFound { comps: nf }) => {
                proof {
                    assert(resolves_to(
                        tree0,
                        parentv,
                        ResolveSpec::NotFound { comps: nf.deep_view() },
                    ));
                    assert(open_matches(
                        Err::<InMemoryFile, FsError>(FsError::NotFound),
                        tree0,
                        store0,
                        tree0,
                        store0,
                        comps0,
                        *options,
                        now,
                    ));
                }
                return Err(FsError::NotFound);
            },
            Err(e) => {
                proof {
                    assert(open_matches(
                        Err::<InMemoryFile, FsError>(e),
                        tree0,
                        store0,
                        tree0,
                        store0,
                        comps0,
                        *options,
                        now,
                    ));
                }
                return Err(e);
            },
        };
        let ghost pcv = pc.deep_view();
        let ghost dn = choose|node: NodeV|
            resolves_to(tree0, parentv, ResolveSpec::Found { comps: pcv, node })
                && #[trigger] info_matches(parent_info, node);
        proof {
            assert(resolves_to(tree0, parentv, ResolveSpec::Found { comps: pcv, node: dn }));
        }
        let st = match self.stat_child(&pc, name.as_str()) {
            Some(st) => st,
            None => {
                proof {
                    assert(open_matches(
                        Err::<InMemoryFile, FsError>(FsError::LeadsIntoFile),
                        tree0,
                        store0,
                        tree0,
                        store0,
                        comps0,
                        *options,
                        now,
                    ));
                }
                return Err(FsError::LeadsIntoFile);
            },
        };
        match st {
            ChildStat::FileAt { file_id } => {
                if options.create_new {
                    proof {
                        assert(open_matches(
                            Err::<InMemoryFile, FsError>(FsError::AlreadyExists),
                            tree0,
                            store0,
                            tree0,
                            store0,
                            comps0,
                            *options,
                            now,
                        ));
                    }
                    return Err(FsError::AlreadyExists);
                }
                if options.truncate {
                    let mode = self.files[file_id].mode;
                    let created = self.files[file_id].created;
                    self.files[file_id] =
                    FileData { data: Vec::new(), mode, created, modified: now };
                    proof {
                        assert(self.store() =~= store0.update(
                            file_id as int,
                            FileDataV {
                                data: Seq::empty(),
                                mode: store0[file_id as int].mode,
                                created: store0[file_id as int].created,
                                modified: now,
                            },
                        ));
                    }
                }
                let pos = if options.append {
                    self.files[file_id].data.len()
                } else {
                    0
                };
                let h = InMemoryFile { file_id, pos };
                proof {
                    assert(open_matches(
                        Ok::<InMemoryFile, FsError>(h),
                        tree0,
                        store0,
                        self.tree(),
                        self.store(),
                        comps0,
                        *options,
                        now,
                    ));
                }
                Ok(h)
            },
            ChildStat::DirAt | ChildStat::LinkAt => {
                proof {
                    assert(open_matches(
                        Err::<InMemoryFile, FsError>(FsError::NotAFile),
                        tree0,
                        store0,
                        tree0,
                        store0,
                        comps0,
                        *options,
                        now,
                    ));
                }
                Err(FsError::NotAFile)
            },
            ChildStat::Missing => {
                if !options.create {
                    proof {
                        assert(open_matches(
                            Err::<InMemoryFile, FsError>(FsError::NotFound),
                            tree0,
                            store0,
                            tree0,
                            store0,
                            comps0,
                            *options,
                            now,
                        ));
                    }
                    return Err(FsError::NotFound);
                }
                let mode = match options.mode {
                    Some(m) => m,
                    None => 0o666,
                };
                let file_id = self.files.len();
                self.files.push(FileData { data: Vec::new(), mode, created: now, modified: now });
                proof {
                    assert(self.store() =~= store0.push(
                        FileDataV { data: Seq::empty(), mode, created: now, modified: now },
                    ));
                    crate::node::lemma_entries_wf_grow(tree0, nfiles, (nfiles + 1) as nat);
                }
                let node = Node::File { name, file_id };
                let mut tmp: Vec<Node> = Vec::new();
                core::mem::swap(&mut self.root, &mut tmp);
                let newroot = put_child_at(tmp, &pc, 0, node, Ghost((nfiles + 1) as nat));
                self.root = newroot;
                let h = InMemoryFile { file_id, pos: 0 };
                proof {
                    assert(self.tree() == put_child(
                        tree0,
                        pcv,
                        0,
                        NodeV::File { name: namev, file_id: nfiles as int },
                    ));
                    let nd = NodeV::File { name: namev, file_id: nfiles as int };
                    assert forall|fid: int| crate::node::id_count(self.tree(), fid) <= 1 by {
                        crate::edit::lemma_put_child_id(tree0, pcv, 0, nd, fid);
                        if fid == nfiles as int {
                            crate::node::lemma_id_count_bound(tree0, nfiles, fid);
                        }
                    }
                    assert(crate::node::ids_unique(self.tree()));
                    assert(open_matches(
                        Ok::<InMemoryFile, FsError>(h),
                        tree0,
                        store0,
                        self.tree(),
                        self.store(),
                        comps0,
                        *options,
                        now,
                    ));
                }
                Ok(h)
            },
        }
    }

    /// Opens a file at the path, after resolving its parent directory
    /// through symlinks.
    pub fn base_fs_open(&mut self, path: &str, options: &crate::options::OpenOptions) -> (r: Result<
        InMemoryFile,
        FsError,
    >)
        requires
            old(self).wf(),
        ensures
            final(self).wf(),
            final(self).same_config(old(self)),
            !r.is_ok() ==> final(self).tree() == old(self).tree() && final(self).store() == old(
                self,
            ).store(),
            exists|now: u64|
                #[trigger] open_matches(
                    r,
                    old(self).tree(),
                    old(self).store(),
                    final(self).tree(),
                    final(self).store(),
                    abs_comps_spec(old(self).cwd_view(), path@),
                    *options,
                    now,
                ) && (old(self).time_view() matches Some(t) ==> now == t),
            r matches Ok(h) ==> 0 <= h.id_view() < final(self).store().len(),
    {
        let now = self.sys_time_now();
        self.open_at(path, options, now)
    }

    /// Opens a file at the path.
    pub fn fs_open(&mut self, path: &str, options: &crate::options::OpenOptions) -> (r: Result<
        InMemoryFile,
        FsError,
    >)
        requires
            old(self).wf(),
        ensures
            final(self).wf(),
            final(self).same_config(old(self)),
            !r.is_ok() ==> final(self).tree() == old(self).tree() && final(self).store() == old(
                self,
            ).store(),
            exists|now: u64|
                #[trigger] open_matches(
                    r,
                    old(self).tree(),
                    old(self).store(),
                    final(self).tree(),
                    final(self).store(),
                    abs_comps_spec(old(self).cwd_view(), path@),
                    *options,
                    now,
                ) && (old(self).time_view() matches Some(t) ==> now == t),
            r matches Ok(h) ==> 0 <= h.id_view() < final(self).store().len(),
    {
        self.base_fs_open(path, options)
    }
}

/// What a directory holds under a name.
pub enum ChildStat {
    /// Nothing of that name.
    Missing,
    /// A file, whose bytes sit in the store under `file_id`.
    FileAt { file_id: usize },
    /// A directory.
    DirAt,
    /// A symlink.
    LinkAt,
}

/// Whether a child report describes what sorted entries `p` hold at `name`.
pub open spec fn child_stat_matches(st: ChildStat, p: Seq<NodeV>, name: Seq<char>) -> bool {
    let k = idx_of(p, name);
    match st {
        ChildStat::Missing => k == -1,
        ChildStat::FileAt { file_id } => k != -1 && (p[k] matches NodeV::File { file_id: f, .. }
            && file_id as int == f),
        ChildStat::DirAt => k != -1 && p[k] matches NodeV::Dir { .. },
        ChildStat::LinkAt => k != -1 && p[k] matches NodeV::Symlink { .. },
    }
}

/// An open handle on a file: the file's slot in the store plus a private
/// cursor. Handles opened independently never share a cursor, but they share
/// the file's bytes through the owning system.
#[derive(Debug, Clone, Copy)]
pub struct InMemoryFile {
    file_id: usize,
    pos: usize,
}

impl InMemoryFile {
    /// The file's slot in the owning system's store.
    pub closed spec fn id_view(&self) -> int {
        self.file_id as int
    }

    /// The cursor.
    pub closed spec fn pos_view(&self) -> int {
        self.pos as int
    }

    /// The cursor, as a number.
    pub fn pos(&self) -> (r: usize)
        ensures
            r == self.pos_view(),
    {
        self.pos
    }

    /// The file's stored permission bits.
    pub fn mode(&self, sys: &InMemorySys) -> (r: u32)
        requires
            sys.wf(),
            0 <= self.id_view() < sys.store().len(),
        ensures
            r == sys.store()[self.id_view()].mode,
    {
        sys.files[self.file_id].mode
    }
}

/// Whether an open answer reports the right outcome and effect. `comps` is
/// the opened path's absolute components; the old and new tree and store
/// frame the effect.
pub open spec fn open_matches(
    r: Result<InMemoryFile, FsError>,
    tree: Seq<NodeV>,
    store: Seq<FileDataV>,
    tree2: Seq<NodeV>,
    store2: Seq<FileDataV>,
    comps: Seq<Seq<char>>,
    opts: crate::options::OpenOptions,
    now: u64,
) -> bool {
    if comps.len() < 2 {
        r == Err::<InMemoryFile, FsError>(FsError::InvalidRootPath)
    } else {
        let parent = comps.drop_last();
        let name = comps.last();
        match r {
            Ok(h) => exists|pc: Seq<Seq<char>>, dn: NodeV|
                #[trigger] resolves_to(tree, parent, ResolveSpec::Found { comps: pc, node: dn })
                    && dirs_ok(tree, pc, 0) && ({
                    let p = dirs_entries(tree, pc, 0);
                    let k = idx_of(p, name);
                    if k != -1 {
                        &&& p[k] matches NodeV::File { file_id, .. } && h.id_view() == file_id
                            && !opts.create_new
                        &&& tree2 == tree
                        &&& store2 == if opts.truncate {
                            store.update(
                                h.id_view(),
                                FileDataV {
                                    data: Seq::empty(),
                                    mode: store[h.id_view()].mode,
                                    created: store[h.id_view()].created,
                                    modified: now,
                                },
                            )
                        } else {
                            store
                        }
                        &&& h.pos_view() == if opts.append {
                            store2[h.id_view()].data.len() as int
                        } else {
                            0
                        }
                    } else {
                        &&& opts.create
                        &&& h.id_view() == store.len()
                        &&& store2 == store.push(
                            FileDataV {
                                data: Seq::empty(),
                                mode: opts.mode.unwrap_or(0o666),
                                created: now,
                                modified: now,
                            },
                        )
                        &&& tree2 == put_child(
                            tree,
                            pc,
                            0,
                            NodeV::File { name, file_id: store.len() as int },
                        )
                        &&& h.pos_view() == 0
                    }
                }),
            Err(FsError::AlreadyExists) => opts.create_new && exists|pc: Seq<Seq<char>>, dn: NodeV|
                #[trigger] resolves_to(tree, parent, ResolveSpec::Found { comps: pc, node: dn })
                    && dirs_ok(tree, pc, 0) && idx_of(dirs_entries(tree, pc, 0), name) != -1
                    && dirs_entries(tree, pc, 0)[idx_of(dirs_entries(tree, pc, 0), name)]
                    matches NodeV::File { .. },
            Err(FsError::NotAFile) => exists|pc: Seq<Seq<char>>, dn: NodeV|
                #[trigger] resolves_to(tree, parent, ResolveSpec::Found { comps: pc, node: dn })
                    && dirs_ok(tree, pc, 0) && idx_of(dirs_entries(tree, pc, 0), name) != -1 && !(
                dirs_entries(tree, pc, 0)[idx_of(dirs_entries(tree, pc, 0), name)]
                    matches NodeV::File { .. }),
            Err(FsError::NotFound) => (exists|c: Seq<Seq<char>>|
                resolves_to(tree, parent, ResolveSpec::NotFound { comps: c })) || (!opts.create
                && exists|pc: Seq<Seq<char>>, dn: NodeV|
                #[trigger] resolves_to(tree, parent, ResolveSpec::Found { comps: pc, node: dn })
                    && dirs_ok(tree, pc, 0) && idx_of(dirs_entries(tree, pc, 0), name) == -1),
            Err(FsError::LeadsIntoFile) => resolves_to(tree, parent, ResolveSpec::IntoFile) || (
            exists|pc: Seq<Seq<char>>, dn: NodeV|
                #[trigger] resolves_to(tree, parent, ResolveSpec::Found { comps: pc, node: dn })
                    && !dirs_ok(tree, pc, 0)),
            Err(e) => resolve_errs(tree, parent, e),
        }
    }
}

/// The metadata the in-memory system reports: a file type and a modified
/// time, in milliseconds of the active clock. The extended platform fields
/// are unsupported in this emulation.
#[derive(Debug, Clone, Copy)]
pub struct InMemoryMetadata {
    pub file_type: FileType,
    pub modified: u64,
}

impl InMemoryMetadata {
    /// The kind of entry.
    pub fn file_type(&self) -> (r: FileType)
        ensures
            r == self.file_type,
    {
        self.file_type
    }

    /// The last-modified time.
    pub fn modified(&self) -> (r: Result<u64, FsError>)
        ensures
            r == Ok::<u64, FsError>(self.modified),
    {
        Ok(self.modified)
    }
}

/// Whether metadata describes a node against a file store.
pub open spec fn md_matches(md: InMemoryMetadata, node: NodeV, store: Seq<FileDataV>) -> bool {
    match node {
        NodeV::File { file_id, .. } => md.file_type == FileType::File && 0 <= file_id
            < store.len() && md.modified == store[file_id].modified,
        NodeV::Dir { modified, .. } => md.file_type == FileType::Dir && md.modified == modified,
        NodeV::Symlink { modified, .. } => md.file_type == FileType::Symlink && md.modified
            == modified,
    }
}

/// A path resolved to its target or not: `c` is the walk's final path.
pub open spec fn resolved_target(tree: Seq<NodeV>, comps: Seq<Seq<char>>, c: Seq<Seq<char>>) -> bool {
    (exists|node: NodeV|
        resolves_to(tree, comps, ResolveSpec::Found { comps: c, node })) || resolves_to(
        tree,
        comps,
        ResolveSpec::NotFound { comps: c },
    )
}

/// Whether a recursive directory-creation answer reports the right outcome
/// and effect.
pub open spec fn create_all_matches(
    r: Result<(), FsError>,
    tree: Seq<NodeV>,
    tree2: Seq<NodeV>,
    comps: Seq<Seq<char>>,
    now: u64,
) -> bool {
    match r {
        Ok(()) => exists|c: Seq<Seq<char>>|
            #[trigger] resolved_target(tree, comps, c) && !dirs_blocked(tree, c, 0) && tree2
                == with_dirs(tree, c, 0, now),
        Err(FsError::LeadsIntoFile) => tree2 == tree && (resolves_to(
            tree,
            comps,
            ResolveSpec::IntoFile,
        ) || exists|c: Seq<Seq<char>>|
            #[trigger] resolved_target(tree, comps, c) && dirs_blocked(tree, c, 0)),
        Err(e) => tree2 == tree && resolve_errs(tree, comps, e),
    }
}

/// Whether a single-directory-creation answer reports the right outcome and
/// effect: the parent must exist and the name must be free.
pub open spec fn create_one_matches(
    r: Result<(), FsError>,
    tree: Seq<NodeV>,
    tree2: Seq<NodeV>,
    comps: Seq<Seq<char>>,
    now: u64,
) -> bool {
    if comps.len() < 2 {
        r == Err::<(), FsError>(FsError::InvalidRootPath) && tree2 == tree
    } else {
        let parent = comps.drop_last();
        let name = comps.last();
        match r {
            Ok(()) => exists|pc: Seq<Seq<char>>, dn: NodeV|
                #[trigger] resolves_to(tree, parent, ResolveSpec::Found { comps: pc, node: dn })
                    && dirs_ok(tree, pc, 0) && idx_of(dirs_entries(tree, pc, 0), name) == -1
                    && tree2 == put_child(
                    tree,
                    pc,
                    0,
                    NodeV::Dir { name, created: now, modified: now, entries: Seq::empty() },
                ),
            Err(FsError::AlreadyExists) => tree2 == tree && exists|pc: Seq<Seq<char>>, dn: NodeV|
                #[trigger] resolves_to(tree, parent, ResolveSpec::Found { comps: pc, node: dn })
                    && dirs_ok(tree, pc, 0) && idx_of(dirs_entries(tree, pc, 0), name) != -1,
            Err(FsError::NotFound) => tree2 == tree && exists|c: Seq<Seq<char>>|
                resolves_to(tree, parent, ResolveSpec::NotFound { comps: c }),
            Err(FsError::LeadsIntoFile) => tree2 == tree && (resolves_to(
                tree,
                parent,
                ResolveSpec::IntoFile,
            ) || (exists|pc: Seq<Seq<char>>, dn: NodeV|
                #[trigger] resolves_to(tree, parent, ResolveSpec::Found { comps: pc, node: dn })
                    && !dirs_ok(tree, pc, 0))),
            Err(e) => tree2 == tree && resolve_errs(tree, parent, e),
        }
    }
}

/// Whether a resolution failure is the one the walk settles on.
pub open spec fn resolve_errs(tree: Seq<NodeV>, comps: Seq<Seq<char>>, e: FsError) -> bool {
    match e {
        FsError::EmptyPath => resolves_to(tree, comps, ResolveSpec::Empty),
        FsError::LeadsIntoFile => resolves_to(tree, comps, ResolveSpec::IntoFile),
        FsError::SymlinkLoop => resolves_to(tree, comps, ResolveSpec::Loop) || resolve_at(
            tree,
            comps,
            Seq::empty(),
            usize::MAX as nat,
        ) matches ResolveSpec::Out { .. },
        _ => false,
    }
}

/// Whether a follow-metadata answer reports the resolution's outcome.
pub open spec fn metadata_matches(
    r: Result<InMemoryMetadata, FsError>,
    tree: Seq<NodeV>,
    store: Seq<FileDataV>,
    comps: Seq<Seq<char>>,
) -> bool {
    match r {
        Ok(md) => exists|c: Seq<Seq<char>>, node: NodeV|
            #[trigger] resolves_to(tree, comps, ResolveSpec::Found { comps: c, node })
                && md_matches(md, node, store),
        Err(FsError::NotFound) => exists|c: Seq<Seq<char>>|
            resolves_to(tree, comps, ResolveSpec::NotFound { comps: c }),
        Err(e) => resolve_errs(tree, comps, e),
    }
}

/// Whether a no-follow-metadata answer reports the single walk's outcome.
pub open spec fn symlink_metadata_matches(
    r: Result<InMemoryMetadata, FsError>,
    tree: Seq<NodeV>,
    store: Seq<FileDataV>,
    comps: Seq<Seq<char>>,
) -> bool {
    if comps.len() == 0 {
        r == Err::<InMemoryMetadata, FsError>(FsError::EmptyPath)
    } else {
        match r {
            Ok(md) => match crate::lookup::lookup_nf(tree, comps, 0) {
                crate::lookup::LookupNF::Found { node } => md_matches(md, node, store),
                crate::lookup::LookupNF::Link { modified, .. } => md.file_type
                    == FileType::Symlink && md.modified == modified,
                _ => false,
            },
            Err(FsError::NotFound) => crate::lookup::lookup_nf(tree, comps, 0)
                matches crate::lookup::LookupNF::NotFound,
            Err(FsError::LeadsIntoFile) => crate::lookup::lookup_nf(tree, comps, 0)
                matches crate::lookup::LookupNF::IntoFile,
            Err(_) => false,
        }
    }
}

/// Whether an existence answer is exact: the boolean is the existence
/// predicate, and the one reportable failure — the walk running into a file
/// mid-path — comes back if and only if that is the walk's outcome.
pub open spec fn exists_outcome(r: Result<bool, FsError>, tree: Seq<NodeV>, comps: Seq<Seq<char>>) -> bool {
    match r {
        Ok(b) => b == exists_spec(tree, comps) && !(comps.len() > 0 && crate::lookup::lookup_nf(
            tree,
            comps,
            0,
        ) matches crate::lookup::LookupNF::IntoFile),
        Err(e) => e == FsError::LeadsIntoFile && comps.len() > 0 && crate::lookup::lookup_nf(
            tree,
            comps,
            0,
        ) matches crate::lookup::LookupNF::IntoFile,
    }
}

/// Whether a kind-query answer is exact: on success the boolean says whether
/// the resolved entry has the asked kind, and each failure is the path's own
/// resolution failure.
pub open spec fn is_kind_outcome(
    r: Result<bool, FsError>,
    tree: Seq<NodeV>,
    store: Seq<FileDataV>,
    comps: Seq<Seq<char>>,
    kind: FileType,
) -> bool {
    match r {
        Ok(b) => exists|md: InMemoryMetadata|
            #[trigger] metadata_matches(Ok(md), tree, store, comps) && b == (md.file_type == kind),
        Err(e) => metadata_matches(Err(e), tree, store, comps),
    }
}

/// Whether a symlink-query answer is exact, against the single no-follow
/// walk.
pub open spec fn is_symlink_outcome(
    r: Result<bool, FsError>,
    tree: Seq<NodeV>,
    store: Seq<FileDataV>,
    comps: Seq<Seq<char>>,
) -> bool {
    match r {
        Ok(b) => exists|md: InMemoryMetadata|
            #[trigger] symlink_metadata_matches(Ok(md), tree, store, comps) && b == (md.file_type
                == FileType::Symlink),
        Err(e) => symlink_metadata_matches(Err(e), tree, store, comps),
    }
}

/// Whether a path names an existing entry: its single no-follow walk finds a
/// node or stops at a symlink.
pub open spec fn exists_spec(tree: Seq<NodeV>, comps: Seq<Seq<char>>) -> bool {
    comps.len() > 0 && match crate::lookup::lookup_nf(tree, comps, 0) {
        crate::lookup::LookupNF::Found { .. } => true,
        crate::lookup::LookupNF::Link { .. } => true,
        _ => false,
    }
}

/// Whether a change of working directory reports the path's resolution
/// exactly: success iff the path resolves (to a path in absolute normal
/// form, which every canonical path is), each failure the resolution's own.
pub open spec fn set_cwd_matches(
    r: Result<(), FsError>,
    tree: Seq<NodeV>,
    comps: Seq<Seq<char>>,
    cwd0: Seq<char>,
    cwd2: Seq<char>,
) -> bool {
    match r {
        Ok(()) => exists|c: Seq<Seq<char>>, node: NodeV|
            #[trigger] resolves_to(tree, comps, ResolveSpec::Found { comps: c, node }) && cwd2
                == norm_str(path_str_of_comps(c)),
        Err(FsError::NotFound) => cwd2 == cwd0 && exists|c: Seq<Seq<char>>|
            resolves_to(tree, comps, ResolveSpec::NotFound { comps: c }),
        Err(FsError::InvalidRootPath) => cwd2 == cwd0 && exists|c: Seq<Seq<char>>, node: NodeV|
            #[trigger] resolves_to(tree, comps, ResolveSpec::Found { comps: c, node }) && !is_abs(
                norm_str(path_str_of_comps(c)),
            ),
        Err(e) => cwd2 == cwd0 && resolve_errs(tree, comps, e),
    }
}

/// Whether a canonicalization answer reports a settled resolution.
pub open spec fn canonicalize_matches(
    r: Result<String, FsError>,
    tree: Seq<NodeV>,
    comps: Seq<Seq<char>>,
) -> bool {
    match r {
        Ok(s) => exists|c: Seq<Seq<char>>, node: NodeV|
            #[trigger] resolves_to(tree, comps, ResolveSpec::Found { comps: c, node }) && s@
                == path_str_of_comps(c),
        Err(FsError::NotFound) => exists|c: Seq<Seq<char>>|
            resolves_to(tree, comps, ResolveSpec::NotFound { comps: c }),
        Err(FsError::EmptyPath) => resolves_to(tree, comps, ResolveSpec::Empty),
        Err(FsError::LeadsIntoFile) => resolves_to(tree, comps, ResolveSpec::IntoFile),
        Err(FsError::SymlinkLoop) => resolves_to(tree, comps, ResolveSpec::Loop) || resolve_at(
            tree,
            comps,
            Seq::empty(),
            usize::MAX as nat,
        ) matches ResolveSpec::Out { .. },
        Err(_) => false,
    }
}


/// A run of zero bytes.
pub open spec fn zeros(n: nat) -> Seq<u8> {
    Seq::new(n, |i: int| 0u8)
}

/// What a write at cursor `pos` leaves in a file: the content up to the
/// cursor, a zero-filled gap if the cursor lay past the end, then the written
/// bytes. Everything that stood at or after the cursor is gone.
pub open spec fn spliced(data: Seq<u8>, pos: int, buf: Seq<u8>) -> Seq<u8> {
    if pos <= data.len() {
        data.take(pos) + buf
    } else {
        data + zeros((pos - data.len()) as nat) + buf
    }
}

impl InMemoryFile {
    /// Reads from the cursor into `buf`, filling at most `buf`'s length and
    /// never failing at the end of the file: reading past it yields zero
    /// bytes and leaves the cursor alone.
    pub fn read(&mut self, sys: &InMemorySys, buf: &mut Vec<u8>) -> (r: Result<usize, FsError>)
        requires
            sys.wf(),
            0 <= old(self).id_view() < sys.store().len(),
        ensures
            final(self).id_view() == old(self).id_view(),
            ({
                let data = sys.store()[old(self).id_view()].data;
                let pos = old(self).pos_view();
                if pos > data.len() {
                    r == Ok::<usize, FsError>(0) && final(self).pos_view() == pos && final(buf)@
                        == old(buf)@
                } else {
                    let n = if data.len() - pos < old(buf)@.len() {
                        data.len() - pos
                    } else {
                        old(buf)@.len() as int
                    };
                    &&& r == Ok::<usize, FsError>(n as usize)
                    &&& final(self).pos_view() == pos + n
                    &&& final(buf)@ == data.subrange(pos, pos + n) + old(buf)@.skip(n)
                    &&& final(buf)@.len() == old(buf)@.len()
                }
            }),
    {
        let fid = self.file_id;
        let flen = sys.files[fid].data.len();
        if self.pos > flen {
            return Ok(0);
        }
        let avail = flen - self.pos;
        let n = if avail < buf.len() {
            avail
        } else {
            buf.len()
        };
        let ghost data = sys.store()[self.id_view()].data;
        let ghost buf0 = buf@;
        let ghost pos0 = self.pos as int;
        let mut i: usize = 0;
        while i < n
            invariant
                i <= n,
                n <= buf0.len(),
                pos0 + n <= data.len(),
                pos0 + n <= usize::MAX,
                pos0 == self.pos as int,
                buf@.len() == buf0.len(),
                data == sys.store()[self.id_view()].data,
                0 <= self.id_view() < sys.store().len(),
                forall|k: int| 0 <= k < i ==> buf@[k] == data[pos0 + k],
                forall|k: int| i <= k < buf0.len() ==> buf@[k] == buf0[k],
            decreases n - i,
        {
            let b = sys.files[self.file_id].data[self.pos + i];
            buf.set(i, b);
            i = i + 1;
        }
        self.pos = self.pos + n;
        proof {
            assert(buf@ =~= data.subrange(pos0, pos0 + n as int) + buf0.skip(n as int));
        }
        Ok(n)
    }

    /// Writes `data` at the cursor: the content keeps its bytes up to the
    /// cursor, a gap past the end is zero-filled, the written bytes follow,
    /// and whatever stood at or after the cursor is dropped. Refreshes the
    /// modified time and advances the cursor by the written length.
    pub fn write(&mut self, sys: &mut InMemorySys, data: &[u8]) -> (r: Result<usize, FsError>)
        requires
            old(sys).wf(),
            0 <= old(self).id_view() < old(sys).store().len(),
            old(self).pos_view() + data@.len() <= usize::MAX,
        ensures
            final(sys).wf(),
            final(sys).tree() == old(sys).tree(),
            final(sys).same_config(old(sys)),
            final(self).id_view() == old(self).id_view(),
            final(self).pos_view() == old(self).pos_view() + data@.len(),
            r == Ok::<usize, FsError>(data@.len() as usize),
            exists|now: u64|
                #[trigger] stamp(now, old(sys).time_view()) && final(sys).store() == old(
                    sys,
                ).store().update(
                    old(self).id_view(),
                    FileDataV {
                        data: spliced(
                            old(sys).store()[old(self).id_view()].data,
                            old(self).pos_view(),
                            data@,
                        ),
                        mode: old(sys).store()[old(self).id_view()].mode,
                        created: old(sys).store()[old(self).id_view()].created,
                        modified: now,
                    },
                ),
    {
        let now = sys.sys_time_now();
        let fid = self.file_id;
        let ghost store0 = sys.store();
        let ghost odata = sys.store()[self.id_view()].data;
        let flen = sys.files[fid].data.len();
        let keep = if self.pos < flen {
            self.pos
        } else {
            flen
        };
        let mut nd: Vec<u8> = Vec::new();
        let mut i: usize = 0;
        while i < keep
            invariant
                i <= keep,
                keep <= odata.len(),
                keep <= self.pos,
                fid == self.file_id,
                0 <= self.id_view() < sys.store().len(),
                odata == sys.store()[self.id_view()].data,
                nd@.len() == i,
                forall|k: int| 0 <= k < i ==> nd@[k] == odata[k],
            decreases keep - i,
        {
            let b = sys.files[fid].data[i];
            nd.push(b);
            i = i + 1;
        }
        while nd.len() < self.pos
            invariant
                keep <= self.pos,
                keep <= odata.len(),
                nd@.len() >= keep,
                nd@.len() <= self.pos,
                forall|k: int| 0 <= k < keep ==> nd@[k] == odata[k],
                forall|k: int| keep <= k < nd@.len() ==> nd@[k] == 0u8,
            decreases self.pos - nd@.len(),
        {
            nd.push(0u8);
        }
        let mut j: usize = 0;
        let ghost mid = nd@;
        while j < data.len()
            invariant
                j <= data@.len(),
                nd@.len() == mid.len() + j,
                forall|k: int| 0 <= k < mid.len() ==> nd@[k] == mid[k],
                forall|k: int| 0 <= k < j ==> nd@[mid.len() + k] == data@[k],
            decreases data@.len() - j,
        {
            let b = data[j];
            nd.push(b);
            j = j + 1;
        }
        let mode = sys.files[fid].mode;
        let created = sys.files[fid].created;
        sys.files[fid] = FileData { data: nd, mode, created, modified: now };
        proof {
            let target = spliced(odata, self.pos as int, data@);
            let ndv = sys.files@[fid as int].data@;
            let pos = self.pos as int;
            assert(mid.len() == pos);
            assert(ndv.len() == pos + data@.len());
            assert(target.len() == pos + data@.len());
            assert forall|k: int| 0 <= k < ndv.len() implies ndv[k] == target[k] by {
                if k < keep {
                    assert(ndv[k] == mid[k]);
                    assert(mid[k] == odata[k]);
                    if pos <= odata.len() {
                        assert(target[k] == odata.take(pos)[k]);
                    } else {
                        assert(target[k] == odata[k]);
                    }
                } else if k < pos {
                    assert(keep == odata.len());
                    assert(ndv[k] == mid[k]);
                    assert(mid[k] == 0u8);
                    assert(target[k] == zeros((pos - odata.len()) as nat)[k - odata.len()]);
                } else {
                    assert(ndv[k] == data@[k - pos]);
                    if pos <= odata.len() {
                        assert(target[k] == data@[k - pos]);
                    } else {
                        assert(target[k] == data@[k - pos]);
                    }
                }
            }
            assert(ndv =~= target);
            assert(sys.store() =~= store0.update(
                fid as int,
                FileDataV {
                    data: target,
                    mode: store0[fid as int].mode,
                    created: store0[fid as int].created,
                    modified: now,
                },
            ));
            assert(stamp(now, old(sys).time_view()));
        }
        let n = data.len();
        self.pos = self.pos + n;
        Ok(n)
    }

    /// Moves the cursor. `Start` places it absolutely, `Current` adds with
    /// wraparound and no bounds error, and `End` counts from the content
    /// length, failing for a position before the start of the file.
    pub fn seek(&mut self, sys: &InMemorySys, from: crate::options::SeekFrom) -> (r: Result<
        u64,
        FsError,
    >)
        requires
            sys.wf(),
            0 <= old(self).id_view() < sys.store().len(),
        ensures
            final(self).id_view() == old(self).id_view(),
            ({
                let len = sys.store()[old(self).id_view()].data.len() as int;
                match from {
                    crate::options::SeekFrom::Start(n) => r == Ok::<u64, FsError>(
                        (n as usize) as u64,
                    ) && final(self).pos_view() == (n as usize) as int,
                    crate::options::SeekFrom::Current(d) => final(self).pos_view()
                        == vstd::wrapping::usize_specs::wrapping_add_signed(
                        old(self).pos_view() as usize,
                        d as isize,
                    ) as int && r == Ok::<u64, FsError>(final(self).pos_view() as u64),
                    crate::options::SeekFrom::End(d) => {
                        if d < 0 && len + d < 0 {
                            r == Err::<u64, FsError>(FsError::SeekBeforeStart)
                                && final(self).pos_view() == old(self).pos_view()
                        } else if len + d > usize::MAX {
                            r == Err::<u64, FsError>(FsError::SeekOverflow)
                                && final(self).pos_view() == old(self).pos_view()
                        } else {
                            r == Ok::<u64, FsError>((len + d) as u64) && final(self).pos_view()
                                == len + d
                        }
                    },
                }
            }),
    {
        match from {
            crate::options::SeekFrom::Start(n) => {
                self.pos = n as usize;
                Ok(self.pos as u64)
            },
            crate::options::SeekFrom::Current(d) => {
                self.pos = self.pos.wrapping_add_signed(d as isize);
                Ok(self.pos as u64)
            },
            crate::options::SeekFrom::End(d) => {
                let flen = sys.files[self.file_id].data.len();
                if d < 0 {
                    let mag = ((-(d + 1)) as u64) + 1;
                    if mag > flen as u64 {
                        return Err(FsError::SeekBeforeStart);
                    }
                    self.pos = flen - (mag as usize);
                    Ok(self.pos as u64)
                } else {
                    if (d as u64) > ((usize::MAX - flen) as u64) {
                        return Err(FsError::SeekOverflow);
                    }
                    self.pos = flen + (d as usize);
                    Ok(self.pos as u64)
                }
            },
        }
    }

    /// Succeeds without doing anything: the buffer is the storage.
    pub fn flush(&mut self, sys: &InMemorySys) -> (r: Result<(), FsError>)
        ensures
            r == Ok::<(), FsError>(()),
            *final(self) == *old(self),
    {
        Ok(())
    }

    /// Stores permission bits on the open file; stored, never enforced.
    pub fn fs_file_set_permissions(&mut self, sys: &mut InMemorySys, mode: u32) -> (r: Result<
        (),
        FsError,
    >)
        requires
            old(sys).wf(),
            0 <= old(self).id_view() < old(sys).store().len(),
        ensures
            final(sys).wf(),
            final(sys).tree() == old(sys).tree(),
            final(sys).same_config(old(sys)),
            *final(self) == *old(self),
            r == Ok::<(), FsError>(()),
            final(sys).store() == old(sys).store().update(
                old(self).id_view(),
                FileDataV {
                    data: old(sys).store()[old(self).id_view()].data,
                    mode,
                    created: old(sys).store()[old(self).id_view()].created,
                    modified: old(sys).store()[old(self).id_view()].modified,
                },
            ),
    {
        let fid = self.file_id;
        let ghost store0 = sys.store();
        let old_fd = &sys.files[fid];
        let created = old_fd.created;
        let modified = old_fd.modified;
        let mut data_tmp: Vec<u8> = Vec::new();
        let mut tmp = FileData { data: data_tmp, mode, created, modified };
        core::mem::swap(&mut sys.files[fid], &mut tmp);
        let fd = FileData { data: tmp.data, mode, created, modified };
        sys.files[fid] = fd;
        proof {
            assert(sys.store() =~= store0.update(
                fid as int,
                FileDataV {
                    data: store0[fid as int].data,
                    mode,
                    created: store0[fid as int].created,
                    modified: store0[fid as int].modified,
                },
            ));
        }
        Ok(())
    }

    /// Truncates or zero-extends the open file to `size` bytes.
    pub fn fs_file_set_len(&mut self, sys: &mut InMemorySys, size: u64) -> (r: Result<(), FsError>)
        requires
            old(sys).wf(),
            0 <= old(self).id_view() < old(sys).store().len(),
        ensures
            final(sys).wf(),
            final(sys).tree() == old(sys).tree(),
            final(sys).same_config(old(sys)),
            *final(self) == *old(self),
            ({
                let data = old(sys).store()[old(self).id_view()].data;
                if size > usize::MAX as u64 {
                    r == Err::<(), FsError>(FsError::SeekOverflow)
                        && final(sys).store() == old(sys).store()
                } else {
                    let ns = if size as int <= data.len() {
                        data.take(size as int)
                    } else {
                        data + zeros((size as int - data.len()) as nat)
                    };
                    r == Ok::<(), FsError>(()) && final(sys).store() == old(sys).store().update(
                        old(self).id_view(),
                        FileDataV {
                            data: ns,
                            mode: old(sys).store()[old(self).id_view()].mode,
                            created: old(sys).store()[old(self).id_view()].created,
                            modified: old(sys).store()[old(self).id_view()].modified,
                        },
                    )
                }
            }),
    {
        if size > (usize::MAX as u64) {
            return Err(FsError::SeekOverflow);
        }
        let target: usize = size as usize;
        let fid = self.file_id;
        let ghost store0 = sys.store();
        let ghost odata = sys.store()[self.id_view()].data;
        let flen = sys.files[fid].data.len();
        let keep = if target < flen {
            target
        } else {
            flen
        };
        let mut nd: Vec<u8> = Vec::new();
        let mut i: usize = 0;
        while i < keep
            invariant
                i <= keep,
                keep <= odata.len(),
                fid == self.file_id,
                0 <= self.id_view() < sys.store().len(),
                odata == sys.store()[self.id_view()].data,
                nd@.len() == i,
                forall|k: int| 0 <= k < i ==> nd@[k] == odata[k],
            decreases keep - i,
        {
            let b = sys.files[fid].data[i];
            nd.push(b);
            i = i + 1;
        }
        while nd.len() < target
            invariant
                nd@.len() >= keep,
                nd@.len() <= target,
                forall|k: int| 0 <= k < keep ==> nd@[k] == odata[k],
                forall|k: int| keep <= k < nd@.len() ==> nd@[k] == 0u8,
            decreases target - nd@.len(),
        {
            nd.push(0u8);
        }
        let mode = sys.files[fid].mode;
        let created = sys.files[fid].created;
        let modified = sys.files[fid].modified;
        sys.files[fid] = FileData { data: nd, mode, created, modified };
        proof {
            let ns = if size as int <= odata.len() {
                odata.take(size as int)
            } else {
                odata + zeros((size as int - odata.len()) as nat)
            };
            assert(sys.files@[fid as int].data@ =~= ns);
            assert(sys.store() =~= store0.update(
                fid as int,
                FileDataV {
                    data: ns,
                    mode: store0[fid as int].mode,
                    created: store0[fid as int].created,
                    modified: store0[fid as int].modified,
                },
            ));
        }
        Ok(())
    }

    /// Stamps the given times on the open file; only the modified time is
    /// stored in this emulation.
    pub fn fs_file_set_times(&mut self, sys: &mut InMemorySys, times: crate::options::FsFileTimes) -> (r:
        Result<(), FsError>)
        requires
            old(sys).wf(),
            0 <= old(self).id_view() < old(sys).store().len(),
        ensures
            final(sys).wf(),
            final(sys).tree() == old(sys).tree(),
            final(sys).same_config(old(sys)),
            *final(self) == *old(self),
            r == Ok::<(), FsError>(()),
            final(sys).store() == ({
                match times.modified {
                    Some(m) => old(sys).store().update(
                        old(self).id_view(),
                        FileDataV {
                            data: old(sys).store()[old(self).id_view()].data,
                            mode: old(sys).store()[old(self).id_view()].mode,
                            created: old(sys).store()[old(self).id_view()].created,
                            modified: m,
                        },
                    ),
                    None => old(sys).store(),
                }
            }),
    {
        let ghost store0 = sys.store();
        match times.modified {
            Some(m) => {
                let fid = self.file_id;
                let mode = sys.files[fid].mode;
                let created = sys.files[fid].created;
                let mut tmp = FileData { data: Vec::new(), mode, created, modified: m };
                core::mem::swap(&mut sys.files[fid], &mut tmp);
                let fd = FileData { data: tmp.data, mode, created, modified: m };
                sys.files[fid] = fd;
                proof {
                    assert(sys.store() =~= store0.update(
                        fid as int,
                        FileDataV {
                            data: store0[fid as int].data,
                            mode: store0[fid as int].mode,
                            created: store0[fid as int].created,
                            modified: m,
                        },
                    ));
                }
                Ok(())
            },
            None => Ok(()),
        }
    }

    /// Succeeds without doing anything: nothing is buffered.
    pub fn fs_file_sync_all(&mut self, sys: &InMemorySys) -> (r: Result<(), FsError>)
        ensures
            r == Ok::<(), FsError>(()),
            *final(self) == *old(self),
    {
        Ok(())
    }

    /// Succeeds without doing anything: nothing is buffered.
    pub fn fs_file_sync_data(&mut self, sys: &InMemorySys) -> (r: Result<(), FsError>)
        ensures
            r == Ok::<(), FsError>(()),
            *final(self) == *old(self),
    {
        Ok(())
    }

    /// An in-memory file is never a terminal.
    pub fn fs_file_is_terminal(&self) -> (r: bool)
        ensures
            r == false,
    {
        false
    }

    /// Takes a lock; granted freely, since the owning system is exclusively
    /// held whenever it is reachable.
    pub fn fs_file_lock(&mut self, mode: crate::options::FsFileLockMode) -> (r: Result<(), FsError>)
        ensures
            r == Ok::<(), FsError>(()),
            *final(self) == *old(self),
    {
        Ok(())
    }

    /// Tries to take a lock; granted freely.
    pub fn fs_file_try_lock(&mut self, mode: crate::options::FsFileLockMode) -> (r: Result<
        (),
        FsError,
    >)
        ensures
            r == Ok::<(), FsError>(()),
            *final(self) == *old(self),
    {
        Ok(())
    }

    /// Releases a lock; nothing was held.
    pub fn fs_file_unlock(&mut self) -> (r: Result<(), FsError>)
        ensures
            r == Ok::<(), FsError>(()),
            *final(self) == *old(self),
    {
        Ok(())
    }
}

/// Whether a clock reading respects a fixed clock: a fixed instant is the
/// reading, an unfixed clock constrains nothing.
pub open spec fn stamp(now: u64, t: Option<u64>) -> bool {
    t matches Some(v) ==> now == v
}


/// The key of the home-directory environment variable.
pub open spec fn home_key() -> Seq<char> {
    seq!['H', 'O', 'M', 'E']
}

/// The name of the cache directory under the home directory.
pub open spec fn cache_name() -> Seq<char> {
    seq!['.', 'c', 'a', 'c', 'h', 'e']
}

/// Joins a file name onto a directory path string.
pub open spec fn path_join_str(p: Seq<char>, n: Seq<char>) -> Seq<char> {
    if p.len() == 0 {
        n
    } else if p.last() == '/' {
        p + n
    } else {
        p + seq!['/'] + n
    }
}

/// Joins a file name onto a directory path string.
pub fn path_join(p: &str, n: &str) -> (r: String)
    ensures
        r@ == path_join_str(p@, n@),
{
    proof {
        reveal_strlit("/");
    }
    let plen = p.unicode_len();
    if plen == 0 {
        let mut out = String::new();
        out.append(n);
        proof {
            assert(out@ =~= path_join_str(p@, n@));
        }
        return out;
    }
    let mut out = String::new();
    out.append(p);
    if p.get_char(plen - 1) != '/' {
        out.append("/");
    }
    out.append(n);
    proof {
        assert(out@ =~= path_join_str(p@, n@));
    }
    out
}

/// The first value stored under a key, scanning in order.
pub open spec fn env_lookup(es: Seq<(Seq<char>, Seq<char>)>, key: Seq<char>) -> Option<Seq<char>>
    decreases es.len(),
{
    if es.len() == 0 {
        None
    } else if es[0].0 == key {
        Some(es[0].1)
    } else {
        env_lookup(es.skip(1), key)
    }
}

/// What a scan finding the first index of a key says about `env_lookup`.
proof fn lemma_env_lookup_at(es: Seq<(Seq<char>, Seq<char>)>, key: Seq<char>, i: int)
    requires
        0 <= i < es.len(),
        es[i].0 == key,
        forall|j: int| 0 <= j < i ==> (#[trigger] es[j]).0 != key,
    ensures
        env_lookup(es, key) == Some(es[i].1),
    decreases es.len(),
{
    if i == 0 {
    } else {
        assert(forall|j: int| 0 <= j < i - 1 ==> es.skip(1)[j] == es[j + 1]);
        assert(es.skip(1)[i - 1] == es[i]);
        lemma_env_lookup_at(es.skip(1), key, i - 1);
    }
}

/// A key no pair carries is absent.
proof fn lemma_env_lookup_none(es: Seq<(Seq<char>, Seq<char>)>, key: Seq<char>)
    requires
        forall|j: int| 0 <= j < es.len() ==> (#[trigger] es[j]).0 != key,
    ensures
        env_lookup(es, key) is None,
    decreases es.len(),
{
    if es.len() > 0 {
        assert(forall|j: int| 0 <= j < es.len() - 1 ==> es.skip(1)[j] == es[j + 1]);
        lemma_env_lookup_none(es.skip(1), key);
    }
}

/// Appending a pair changes no lookup except for its own key when absent.
proof fn lemma_env_lookup_push(
    es: Seq<(Seq<char>, Seq<char>)>,
    p: (Seq<char>, Seq<char>),
    k: Seq<char>,
)
    ensures
        env_lookup(es.push(p), k) == if env_lookup(es, k) is Some {
            env_lookup(es, k)
        } else if p.0 == k {
            Some(p.1)
        } else {
            None
        },
    decreases es.len(),
{
    if es.len() == 0 {
        assert(es.push(p)[0] == p);
        assert(es.push(p).len() == 1);
        assert(es.push(p).skip(1) =~= Seq::<(Seq<char>, Seq<char>)>::empty());
        assert(env_lookup(es, k) is None);
        if p.0 == k {
            assert(env_lookup(es.push(p), k) == Some(p.1));
        } else {
            assert(env_lookup(es.push(p), k) == env_lookup(es.push(p).skip(1), k));
            assert(env_lookup(es.push(p).skip(1), k) is None);
        }
    } else {
        assert(es.push(p)[0] == es[0]);
        assert(es.push(p).skip(1) =~= es.skip(1).push(p));
        lemma_env_lookup_push(es.skip(1), p, k);
    }
}

/// Lookups scan keys and values alone: lists whose pairs agree except for
/// values stored under `key` agree on every other key.
proof fn lemma_env_lookup_frame(
    es: Seq<(Seq<char>, Seq<char>)>,
    es2: Seq<(Seq<char>, Seq<char>)>,
    key: Seq<char>,
)
    requires
        es.len() == es2.len(),
        forall|j: int| 0 <= j < es.len() ==> (#[trigger] es2[j]).0 == es[j].0,
        forall|j: int| 0 <= j < es.len() ==> (#[trigger] es2[j]).1 == es[j].1 || es[j].0 == key,
    ensures
        forall|k: Seq<char>| k != key ==> #[trigger] env_lookup(es2, k) == env_lookup(es, k),
    decreases es.len(),
{
    if es.len() > 0 {
        assert(forall|j: int| 0 <= j < es.len() - 1 ==> es.skip(1)[j] == es[j + 1]);
        assert(forall|j: int| 0 <= j < es2.len() - 1 ==> es2.skip(1)[j] == es2[j + 1]);
        lemma_env_lookup_frame(es.skip(1), es2.skip(1), key);
        assert forall|k: Seq<char>| k != key implies #[trigger] env_lookup(es2, k) == env_lookup(
            es,
            k,
        ) by {
            assert(es2[0].0 == es[0].0);
            if es[0].0 == k {
                assert(es2[0].1 == es[0].1);
            } else {
                assert(env_lookup(es2.skip(1), k) == env_lookup(es.skip(1), k));
            }
        }
    }
}

impl InMemorySys {
    /// The value of an environment variable.
    pub fn base_env_var_os(&self, key: &str) -> (r: Option<String>)
        requires
            self.wf(),
        ensures
            match r {
                Some(v) => env_lookup(self.envs_view(), key@) == Some(v@),
                None => env_lookup(self.envs_view(), key@) is None,
            },
    {
        let ghost ev = self.envs_view();
        let mut i: usize = 0;
        while i < self.envs.len()
            invariant
                i <= self.envs@.len(),
                ev == self.envs_view(),
                ev.len() == self.envs@.len(),
                forall|j: int| 0 <= j < i ==> (#[trigger] ev[j]).0 != key@,
            decreases self.envs@.len() - i,
        {
            proof {
                assert(ev[i as int].0 == self.envs@[i as int].0@);
            }
            if crate::node::str_eq(self.envs[i].0.as_str(), key) {
                let v = self.envs[i].1.clone();
                proof {
                    lemma_env_lookup_at(ev, key@, i as int);
                }
                return Some(v);
            }
            i = i + 1;
        }
        proof {
            lemma_env_lookup_none(ev, key@);
        }
        None
    }

    /// The value of an environment variable.
    pub fn env_var_os(&self, key: &str) -> (r: Option<String>)
        requires
            self.wf(),
        ensures
            match r {
                Some(v) => env_lookup(self.envs_view(), key@) == Some(v@),
                None => env_lookup(self.envs_view(), key@) is None,
            },
    {
        self.base_env_var_os(key)
    }

    /// The value of an environment variable, a missing one reported as an
    /// error.
    pub fn env_var(&self, key: &str) -> (r: Result<String, FsError>)
        requires
            self.wf(),
        ensures
            match r {
                Ok(v) => env_lookup(self.envs_view(), key@) == Some(v@),
                Err(e) => e == FsError::NotFound && env_lookup(self.envs_view(), key@) is None,
            },
    {
        match self.env_var_os(key) {
            Some(v) => Ok(v),
            None => Err(FsError::NotFound),
        }
    }

    /// The value of an environment variable as a path, an empty value
    /// counting as unset.
    pub fn env_var_path(&self, key: &str) -> (r: Option<String>)
        requires
            self.wf(),
        ensures
            match r {
                Some(v) => env_lookup(self.envs_view(), key@) == Some(v@) && v@.len() > 0,
                None => env_lookup(self.envs_view(), key@) is None || env_lookup(
                    self.envs_view(),
                    key@,
                ) == Some(Seq::<char>::empty()),
            },
    {
        match self.env_var_os(key) {
            Some(v) => {
                if v.as_str().unicode_len() == 0 {
                    proof {
                        assert(v@ =~= Seq::<char>::empty());
                    }
                    None
                } else {
                    Some(v)
                }
            },
            None => None,
        }
    }

    /// Stores an environment variable, replacing any previous value.
    pub fn base_env_set_var(&mut self, key: &str, value: &str)
        requires
            old(self).wf(),
        ensures
            final(self).wf(),
            final(self).tree() == old(self).tree(),
            final(self).store() == old(self).store(),
            final(self).cwd_view() == old(self).cwd_view(),
            final(self).seed_view() == old(self).seed_view(),
            final(self).time_view() == old(self).time_view(),
            final(self).sleep_enabled() == old(self).sleep_enabled(),
            env_lookup(final(self).envs_view(), key@) == Some(value@),
            forall|k: Seq<char>|
                k != key@ ==> #[trigger] env_lookup(final(self).envs_view(), k) == env_lookup(
                    old(self).envs_view(),
                    k,
                ),
    {
        let ghost ev = self.envs_view();
        let mut i: usize = 0;
        let n = self.envs.len();
        while i < n
            invariant
                i <= self.envs@.len(),
                n == self.envs@.len(),
                *self == *old(self),
                old(self).wf(),
                ev == self.envs_view(),
                ev.len() == self.envs@.len(),
                forall|j: int| 0 <= j < i ==> (#[trigger] ev[j]).0 != key@,
            decreases self.envs@.len() - i,
        {
            proof {
                assert(ev[i as int].0 == self.envs@[i as int].0@);
            }
            if crate::node::str_eq(self.envs[i].0.as_str(), key) {
                let k0 = self.envs[i].0.clone();
                let mut nv = String::new();
                nv.append(value);
                self.envs[i] = (k0, nv);
                proof {
                    let ev2 = self.envs_view();
                    assert(ev2.len() == ev.len());
                    assert forall|j: int| 0 <= j < ev.len() implies (#[trigger] ev2[j]).0
                        == ev[j].0 by {}
                    assert(ev2[i as int].1 == value@);
                    assert forall|j: int| 0 <= j < ev.len() implies (#[trigger] ev2[j]).1
                        == ev[j].1 || ev[j].0 == key@ by {
                        if j != i {
                            assert(self.envs@[j] == old(self).envs@[j]);
                        }
                    }
                    lemma_env_lookup_at(ev2, key@, i as int);
                    lemma_env_lookup_frame(ev, ev2, key@);
                }
                return ;
            }
            i = i + 1;
        }
        let mut nk = String::new();
        nk.append(key);
        let mut nv = String::new();
        nv.append(value);
        self.envs.push((nk, nv));
        proof {
            let ev2 = self.envs_view();
            assert(ev2.len() == ev.len() + 1);
            assert forall|j: int| 0 <= j < ev.len() implies #[trigger] ev2[j] == ev[j] by {
                assert(self.envs@[j] == old(self).envs@[j]);
            }
            assert(ev2[ev.len() as int].0 == key@);
            assert(ev2[ev.len() as int].1 == value@);
            lemma_env_lookup_at(ev2, key@, ev.len() as int);
            assert forall|k: Seq<char>| k != key@ implies #[trigger] env_lookup(ev2, k)
                == env_lookup(ev, k) by {
                assert(ev2 =~= ev.push((key@, value@)));
                lemma_env_lookup_push(ev, (key@, value@), k);
            }
            assert(env_unique(ev2));
        }
    }

    /// Stores an environment variable.
    pub fn env_set_var(&mut self, key: &str, value: &str)
        requires
            old(self).wf(),
        ensures
            final(self).wf(),
            final(self).tree() == old(self).tree(),
            final(self).store() == old(self).store(),
            final(self).cwd_view() == old(self).cwd_view(),
            final(self).seed_view() == old(self).seed_view(),
            final(self).time_view() == old(self).time_view(),
            final(self).sleep_enabled() == old(self).sleep_enabled(),
            env_lookup(final(self).envs_view(), key@) == Some(value@),
            forall|k: Seq<char>|
                k != key@ ==> #[trigger] env_lookup(final(self).envs_view(), k) == env_lookup(
                    old(self).envs_view(),
                    k,
                ),
    {
        self.base_env_set_var(key, value)
    }

    /// The working directory.
    pub fn env_current_dir(&self) -> (r: Result<String, FsError>)
        requires
            self.wf(),
        ensures
            r matches Ok(s) && s@ == self.cwd_view(),
    {
        Ok(self.cwd.clone())
    }

    /// Changes the working directory to the canonical form of the path; a
    /// path that does not resolve is an error.
    pub fn base_env_set_current_dir(&mut self, path: &str) -> (r: Result<(), FsError>)
        requires
            old(self).wf(),
        ensures
            final(self).wf(),
            final(self).tree() == old(self).tree(),
            final(self).store() == old(self).store(),
            final(self).envs_view() == old(self).envs_view(),
            final(self).seed_view() == old(self).seed_view(),
            final(self).time_view() == old(self).time_view(),
            final(self).sleep_enabled() == old(self).sleep_enabled(),
            set_cwd_matches(
                r,
                old(self).tree(),
                abs_comps_spec(old(self).cwd_view(), path@),
                old(self).cwd_view(),
                final(self).cwd_view(),
            ),
    {
        let comps = self.abs_comps(path);
        let ghost cspec = comps.deep_view();
        let ghost tree0 = self.tree();
        let c = match resolve_follow(&self.root, comps, Ghost(self.store().len() as nat)) {
            Ok(ResolveOk::Found { comps: c, info: _ }) => c,
            Ok(ResolveOk::NotFound { comps: nf }) => {
                proof {
                    assert(resolves_to(
                        tree0,
                        cspec,
                        ResolveSpec::NotFound { comps: nf.deep_view() },
                    ));
                }
                return Err(FsError::NotFound);
            },
            Err(e) => {
                return Err(e);
            },
        };
        let cs = comps_to_string(&c);
        let n = normalize_path(cs.as_str());
        if !is_abs_path(n.as_str()) {
            return Err(FsError::InvalidRootPath);
        }
        proof {
            lemma_normalize_idempotent(cs@);
        }
        self.cwd = n;
        Ok(())
    }

    /// Changes the working directory.
    pub fn env_set_current_dir(&mut self, path: &str) -> (r: Result<(), FsError>)
        requires
            old(self).wf(),
        ensures
            final(self).wf(),
            final(self).tree() == old(self).tree(),
            final(self).store() == old(self).store(),
            final(self).envs_view() == old(self).envs_view(),
            final(self).seed_view() == old(self).seed_view(),
            final(self).time_view() == old(self).time_view(),
            final(self).sleep_enabled() == old(self).sleep_enabled(),
            set_cwd_matches(
                r,
                old(self).tree(),
                abs_comps_spec(old(self).cwd_view(), path@),
                old(self).cwd_view(),
                final(self).cwd_view(),
            ),
    {
        self.base_env_set_current_dir(path)
    }

    /// The home directory, read from the `HOME` environment variable.
    pub fn env_home_dir(&self) -> (r: Option<String>)
        requires
            self.wf(),
        ensures
            match r {
                Some(v) => env_lookup(self.envs_view(), home_key()) == Some(v@),
                None => env_lookup(self.envs_view(), home_key()) is None,
            },
    {
        proof {
            reveal_strlit("HOME");
            assert("HOME"@ =~= home_key());
        }
        match self.env_var("HOME") {
            Ok(v) => Some(v),
            Err(_) => None,
        }
    }

    /// The cache directory: `.cache` under the home directory, absent
    /// exactly when no home directory is set.
    pub fn env_cache_dir(&self) -> (r: Option<String>)
        requires
            self.wf(),
        ensures
            match r {
                Some(v) => exists|h: Seq<char>|
                    env_lookup(self.envs_view(), home_key()) == Some(h) && v@
                        == #[trigger] path_join_str(h, cache_name()),
                None => env_lookup(self.envs_view(), home_key()) is None,
            },
    {
        match self.env_home_dir() {
            Some(h) => {
                proof {
                    reveal_strlit(".cache");
                    assert(".cache"@ =~= cache_name());
                }
                let j = path_join(h.as_str(), ".cache");
                Some(j)
            },
            None => None,
        }
    }

    /// The temporary directory: `tmp` under the first root, which must
    /// exist.
    pub fn env_temp_dir(&self) -> (r: Result<String, FsError>)
        requires
            self.wf(),
        ensures
            match r {
                Ok(v) => self.tree().len() > 0 && v@ == path_join_str(
                    if nv_name(self.tree()[0]).len() == 0 {
                        seq!['/']
                    } else {
                        nv_name(self.tree()[0])
                    },
                    seq!['t', 'm', 'p'],
                ),
                Err(e) => e == FsError::NoRoot && self.tree().len() == 0,
            },
    {
        proof {
            lemma_entries_view(self.root@);
            reveal_strlit("tmp");
            reveal_strlit("/");
        }
        if self.root.len() == 0 {
            return Err(FsError::NoRoot);
        }
        let name = crate::node::node_name(&self.root[0]);
        let base = if name.as_str().unicode_len() == 0 {
            String::from_str("/")
        } else {
            name.clone()
        };
        proof {
            if nv_name(self.tree()[0]).len() == 0 {
                assert(base@ =~= seq!['/']);
            }
            assert("tmp"@ =~= seq!['t', 'm', 'p']);
        }
        Ok(path_join(base.as_str(), "tmp"))
    }
}


/// A file found under `name` in the directory `pc`, reached by resolving
/// `parent`: its bytes sit in the store under `fid`.
pub open spec fn file_at(
    tree: Seq<NodeV>,
    parent: Seq<Seq<char>>,
    pc: Seq<Seq<char>>,
    name: Seq<char>,
    fid: int,
) -> bool {
    &&& exists|dn: NodeV|
        #[trigger] resolves_to(tree, parent, ResolveSpec::Found { comps: pc, node: dn })
    &&& dirs_ok(tree, pc, 0)
    &&& ({
        let p = dirs_entries(tree, pc, 0);
        let k = idx_of(p, name);
        k != -1 && p[k] == (NodeV::File { name, file_id: fid })
    })
}

/// Whether a whole-file read's answer reports the right file or failure.
pub open spec fn read_matches(
    r: Result<Seq<u8>, FsError>,
    tree: Seq<NodeV>,
    store: Seq<FileDataV>,
    comps: Seq<Seq<char>>,
) -> bool {
    if comps.len() < 2 {
        r == Err::<Seq<u8>, FsError>(FsError::InvalidRootPath)
    } else {
        let parent = comps.drop_last();
        let name = comps.last();
        match r {
            Ok(v) => exists|pc: Seq<Seq<char>>, fid: int|
                #[trigger] file_at(tree, parent, pc, name, fid) && 0 <= fid < store.len() && v
                    == store[fid].data,
            Err(FsError::NotAFile) => exists|pc: Seq<Seq<char>>, dn: NodeV|
                #[trigger] resolves_to(tree, parent, ResolveSpec::Found { comps: pc, node: dn })
                    && dirs_ok(tree, pc, 0) && idx_of(dirs_entries(tree, pc, 0), name) != -1 && !(
                dirs_entries(tree, pc, 0)[idx_of(dirs_entries(tree, pc, 0), name)]
                    matches NodeV::File { .. }),
            Err(FsError::NotFound) => (exists|c: Seq<Seq<char>>|
                resolves_to(tree, parent, ResolveSpec::NotFound { comps: c })) || (exists|
                pc: Seq<Seq<char>>,
                dn: NodeV,
            |
                #[trigger] resolves_to(tree, parent, ResolveSpec::Found { comps: pc, node: dn })
                    && dirs_ok(tree, pc, 0) && idx_of(dirs_entries(tree, pc, 0), name) == -1),
            Err(FsError::LeadsIntoFile) => resolves_to(tree, parent, ResolveSpec::IntoFile) || (
            exists|pc: Seq<Seq<char>>, dn: NodeV|
                #[trigger] resolves_to(tree, parent, ResolveSpec::Found { comps: pc, node: dn })
                    && !dirs_ok(tree, pc, 0)),
            Err(e) => resolve_errs(tree, parent, e),
        }
    }
}

/// Whether a whole-file write's answer reports the right outcome and effect.
pub open spec fn write_matches(
    r: Result<(), FsError>,
    tree: Seq<NodeV>,
    store: Seq<FileDataV>,
    tree2: Seq<NodeV>,
    store2: Seq<FileDataV>,
    comps: Seq<Seq<char>>,
    bytes: Seq<u8>,
    now: u64,
) -> bool {
    if comps.len() < 2 {
        r == Err::<(), FsError>(FsError::InvalidRootPath)
    } else {
        let parent = comps.drop_last();
        let name = comps.last();
        match r {
            Ok(()) => exists|pc: Seq<Seq<char>>, dn: NodeV|
                #[trigger] resolves_to(tree, parent, ResolveSpec::Found { comps: pc, node: dn })
                    && dirs_ok(tree, pc, 0) && ({
                    let p = dirs_entries(tree, pc, 0);
                    let k = idx_of(p, name);
                    if k != -1 {
                        p[k] matches NodeV::File { file_id, .. } && (tree2 == tree && store2
                            == store.update(
                            file_id,
                            FileDataV {
                                data: bytes,
                                mode: store[file_id].mode,
                                created: store[file_id].created,
                                modified: now,
                            },
                        ))
                    } else {
                        &&& tree2 == put_child(
                            tree,
                            pc,
                            0,
                            NodeV::File { name, file_id: store.len() as int },
                        )
                        &&& store2 == store.push(
                            FileDataV { data: bytes, mode: 0o666, created: now, modified: now },
                        )
                    }
                }),
            Err(FsError::NotAFile) => exists|pc: Seq<Seq<char>>, dn: NodeV|
                #[trigger] resolves_to(tree, parent, ResolveSpec::Found { comps: pc, node: dn })
                    && dirs_ok(tree, pc, 0) && idx_of(dirs_entries(tree, pc, 0), name) != -1 && !(
                dirs_entries(tree, pc, 0)[idx_of(dirs_entries(tree, pc, 0), name)]
                    matches NodeV::File { .. }),
            Err(FsError::NotFound) => exists|c: Seq<Seq<char>>|
                resolves_to(tree, parent, ResolveSpec::NotFound { comps: c }),
            Err(FsError::LeadsIntoFile) => resolves_to(tree, parent, ResolveSpec::IntoFile) || (
            exists|pc: Seq<Seq<char>>, dn: NodeV|
                #[trigger] resolves_to(tree, parent, ResolveSpec::Found { comps: pc, node: dn })
                    && !dirs_ok(tree, pc, 0)),
            Err(e) => resolve_errs(tree, parent, e),
        }
    }
}

/// Whether a file-removal answer reports the right outcome and effect.
pub open spec fn remove_matches(
    r: Result<(), FsError>,
    tree: Seq<NodeV>,
    tree2: Seq<NodeV>,
    comps: Seq<Seq<char>>,
) -> bool {
    if comps.len() < 2 {
        r == Err::<(), FsError>(FsError::InvalidRootPath) && tree2 == tree
    } else {
        let parent = comps.drop_last();
        let name = comps.last();
        match r {
            Ok(()) => exists|pc: Seq<Seq<char>>, dn: NodeV|
                #[trigger] resolves_to(tree, parent, ResolveSpec::Found { comps: pc, node: dn })
                    && dirs_ok(tree, pc, 0) && ({
                    let p = dirs_entries(tree, pc, 0);
                    let k = idx_of(p, name);
                    k != -1 && (p[k] matches NodeV::File { .. }) && tree2 == remove_child(
                        tree,
                        pc,
                        0,
                        name,
                    )
                }),
            Err(FsError::NotAFile) => tree2 == tree && exists|pc: Seq<Seq<char>>, dn: NodeV|
                #[trigger] resolves_to(tree, parent, ResolveSpec::Found { comps: pc, node: dn })
                    && dirs_ok(tree, pc, 0) && idx_of(dirs_entries(tree, pc, 0), name) != -1 && !(
                dirs_entries(tree, pc, 0)[idx_of(dirs_entries(tree, pc, 0), name)]
                    matches NodeV::File { .. }),
            Err(FsError::NotFound) => tree2 == tree && ((exists|c: Seq<Seq<char>>|
                resolves_to(tree, parent, ResolveSpec::NotFound { comps: c })) || (exists|
                pc: Seq<Seq<char>>,
                dn: NodeV,
            |
                #[trigger] resolves_to(tree, parent, ResolveSpec::Found { comps: pc, node: dn })
                    && dirs_ok(tree, pc, 0) && idx_of(dirs_entries(tree, pc, 0), name) == -1)),
            Err(FsError::LeadsIntoFile) => tree2 == tree && (resolves_to(
                tree,
                parent,
                ResolveSpec::IntoFile,
            ) || (exists|pc: Seq<Seq<char>>, dn: NodeV|
                #[trigger] resolves_to(tree, parent, ResolveSpec::Found { comps: pc, node: dn })
                    && !dirs_ok(tree, pc, 0))),
            Err(e) => tree2 == tree && resolve_errs(tree, parent, e),
        }
    }
}

impl InMemorySys {
    /// Writes whole bytes to a file: the file is created if absent and
    /// replaced if present, its parent resolved through symlinks.
    pub fn base_fs_write(&mut self, path: &str, data: &[u8]) -> (r: Result<(), FsError>)
        requires
            old(self).wf(),
        ensures
            final(self).wf(),
            final(self).same_config(old(self)),
            !r.is_ok() ==> final(self).tree() == old(self).tree() && final(self).store() == old(
                self,
            ).store(),
            exists|now: u64|
                #[trigger] stamp(now, old(self).time_view()) && write_matches(
                    r,
                    old(self).tree(),
                    old(self).store(),
                    final(self).tree(),
                    final(self).store(),
                    abs_comps_spec(old(self).cwd_view(), path@),
                    data@,
                    now,
                ),
    {
        let now = self.sys_time_now();
        let ghost tree0 = self.tree();
        let ghost store0 = self.store();
        let ghost comps0 = abs_comps_spec(self.cwd_view(), path@);
        let opts = crate::options::OpenOptions {
            write: true,
            create: true,
            truncate: true,
            ..crate::options::OpenOptions::default()
        };
        let h = match self.open_at(path, &opts, now) {
            Ok(h) => h,
            Err(e) => {
                proof {
                    assert(stamp(now, old(self).time_view()));
                    assert(write_matches(
                        Err::<(), FsError>(e),
                        tree0,
                        store0,
                        self.tree(),
                        self.store(),
                        comps0,
                        data@,
                        now,
                    ));
                }
                return Err(e);
            },
        };
        let ghost store1 = self.store();
        let ghost tree1 = self.tree();
        let fid = h.file_id;
        let mode = self.files[fid].mode;
        let created = self.files[fid].created;
        let nd = vstd::slice::slice_to_vec(data);
        self.files[fid] = FileData { data: nd, mode, created, modified: now };
        proof {
            assert(self.tree() == tree1);
            assert(self.store() =~= store1.update(
                fid as int,
                FileDataV {
                    data: data@,
                    mode: store1[fid as int].mode,
                    created: store1[fid as int].created,
                    modified: now,
                },
            ));
            let parent = comps0.drop_last();
            let name = comps0.last();
            let (pc, dn) = choose|pc: Seq<Seq<char>>, dn: NodeV|
                #[trigger] resolves_to(tree0, parent, ResolveSpec::Found { comps: pc, node: dn })
                    && dirs_ok(tree0, pc, 0) && ({
                    let p = dirs_entries(tree0, pc, 0);
                    let k = idx_of(p, name);
                    if k != -1 {
                        &&& p[k] matches NodeV::File { file_id, .. } && h.id_view() == file_id
                            && !opts.create_new
                        &&& tree1 == tree0
                        &&& store1 == if opts.truncate {
                            store0.update(
                                h.id_view(),
                                FileDataV {
                                    data: Seq::empty(),
                                    mode: store0[h.id_view()].mode,
                                    created: store0[h.id_view()].created,
                                    modified: now,
                                },
                            )
                        } else {
                            store0
                        }
                        &&& h.pos_view() == if opts.append {
                            store1[h.id_view()].data.len() as int
                        } else {
                            0
                        }
                    } else {
                        &&& opts.create
                        &&& h.id_view() == store0.len()
                        &&& store1 == store0.push(
                            FileDataV {
                                data: Seq::empty(),
                                mode: match opts.mode {
                                    Some(m) => m,
                                    None => 0o666,
                                },
                                created: now,
                                modified: now,
                            },
                        )
                        &&& tree1 == put_child(
                            tree0,
                            pc,
                            0,
                            NodeV::File { name, file_id: store0.len() as int },
                        )
                        &&& h.pos_view() == 0
                    }
                });
            let p = dirs_entries(tree0, pc, 0);
            let k = idx_of(p, name);
            crate::edit::lemma_dirs_entries_wf(tree0, pc, 0, store0.len() as nat);
            if k != -1 {
                crate::node::lemma_idx_of(p, name);
                assert(nv_wf(p[k], store0.len() as nat));
                assert(0 <= h.id_view() < store0.len());
                assert(self.store() =~= store0.update(
                    h.id_view(),
                    FileDataV {
                        data: data@,
                        mode: store0[h.id_view()].mode,
                        created: store0[h.id_view()].created,
                        modified: now,
                    },
                ));
            } else {
                assert(self.store() =~= store0.push(
                    FileDataV { data: data@, mode: 0o666, created: now, modified: now },
                ));
            }
            assert(stamp(now, old(self).time_view()));
            assert(write_matches(
                Ok::<(), FsError>(()),
                tree0,
                store0,
                self.tree(),
                self.store(),
                comps0,
                data@,
                now,
            ));
        }
        Ok(())
    }

    /// Writes whole bytes to a file.
    pub fn fs_write(&mut self, path: &str, data: &[u8]) -> (r: Result<(), FsError>)
        requires
            old(self).wf(),
        ensures
            final(self).wf(),
            final(self).same_config(old(self)),
            !r.is_ok() ==> final(self).tree() == old(self).tree() && final(self).store() == old(
                self,
            ).store(),
            exists|now: u64|
                #[trigger] stamp(now, old(self).time_view()) && write_matches(
                    r,
                    old(self).tree(),
                    old(self).store(),
                    final(self).tree(),
                    final(self).store(),
                    abs_comps_spec(old(self).cwd_view(), path@),
                    data@,
                    now,
                ),
    {
        self.base_fs_write(path, data)
    }

    /// Reads a file's whole bytes, its parent resolved through symlinks; the
    /// final name itself is not followed and must be a file.
    pub fn base_fs_read(&self, path: &str) -> (r: Result<Vec<u8>, FsError>)
        requires
            self.wf(),
        ensures
            read_matches(
                match r {
                    Ok(v) => Ok(v@),
                    Err(e) => Err(e),
                },
                self.tree(),
                self.store(),
                abs_comps_spec(self.cwd_view(), path@),
            ),
    {
        let ghost comps0 = abs_comps_spec(self.cwd_view(), path@);
        let ghost tree0 = self.tree();
        let comps = self.abs_comps(path);
        let ghost nfiles = self.store().len() as nat;
        if comps.len() < 2 {
            return Err(FsError::InvalidRootPath);
        }
        let ghost parentv = comps0.drop_last();
        let mut parent = comps;
        let name = match parent.pop() {
            Some(n) => n,
            None => {
                proof {
                    assert(false);
                }
                return Err(FsError::InvalidRootPath);
            },
        };
        proof {
            crate::lookup::lemma_comps_view(&parent);
            assert(parent.deep_view() =~= parentv);
            assert(name@ == comps0.last());
        }
        let (pc, parent_info) = match resolve_follow(&self.root, parent, Ghost(nfiles)) {
            Ok(ResolveOk::Found { comps: c, info }) => (c, info),
            Ok(ResolveOk::NotFound { comps: nf }) => {
                proof {
                    assert(resolves_to(
                        tree0,
                        parentv,
                        ResolveSpec::NotFound { comps: nf.deep_view() },
                    ));
                }
                return Err(FsError::NotFound);
            },
            Err(e) => {
                return Err(e);
            },
        };
        let ghost pcv = pc.deep_view();
        let ghost dn = choose|node: NodeV|
            resolves_to(tree0, parentv, ResolveSpec::Found { comps: pcv, node })
                && #[trigger] info_matches(parent_info, node);
        proof {
            assert(resolves_to(tree0, parentv, ResolveSpec::Found { comps: pcv, node: dn }));
        }
        let st = match self.stat_child(&pc, name.as_str()) {
            Some(st) => st,
            None => {
                return Err(FsError::LeadsIntoFile);
            },
        };
        match st {
            ChildStat::FileAt { file_id } => {
                let v = vstd::slice::slice_to_vec(self.files[file_id].data.as_slice());
                proof {
                    let p = dirs_entries(tree0, pcv, 0);
                    let k = idx_of(p, name@);
                    crate::node::lemma_idx_of(p, name@);
                    assert(nv_name(p[k]) == name@);
                    assert(p[k] matches NodeV::File { .. });
                    assert(p[k] == (NodeV::File { name: name@, file_id: file_id as int }));
                    assert(file_at(tree0, parentv, pcv, name@, file_id as int));
                    assert(v@ == self.store()[file_id as int].data);
                }
                Ok(v)
            },
            ChildStat::DirAt | ChildStat::LinkAt => Err(FsError::NotAFile),
            ChildStat::Missing => Err(FsError::NotFound),
        }
    }

    /// Reads a file's whole bytes.
    pub fn fs_read(&self, path: &str) -> (r: Result<Vec<u8>, FsError>)
        requires
            self.wf(),
        ensures
            read_matches(
                match r {
                    Ok(v) => Ok(v@),
                    Err(e) => Err(e),
                },
                self.tree(),
                self.store(),
                abs_comps_spec(self.cwd_view(), path@),
            ),
    {
        self.base_fs_read(path)
    }

    /// Reads a file as text; bytes that are not valid UTF-8 are an error.
    pub fn fs_read_to_string(&self, path: &str) -> (r: Result<String, FsError>)
        requires
            self.wf(),
        ensures
            match r {
                Ok(s) => exists|v: Seq<u8>|
                    #[trigger] read_matches(
                        Ok(v),
                        self.tree(),
                        self.store(),
                        abs_comps_spec(self.cwd_view(), path@),
                    ) && vstd::utf8::valid_utf8(v) && s@ == vstd::utf8::decode_utf8(v),
                Err(FsError::InvalidUtf8) => exists|v: Seq<u8>|
                    #[trigger] read_matches(
                        Ok(v),
                        self.tree(),
                        self.store(),
                        abs_comps_spec(self.cwd_view(), path@),
                    ) && !vstd::utf8::valid_utf8(v),
                Err(e) => read_matches(
                    Err(e),
                    self.tree(),
                    self.store(),
                    abs_comps_spec(self.cwd_view(), path@),
                ),
            },
    {
        let v = match self.fs_read(path) {
            Ok(v) => v,
            Err(e) => {
                return Err(e);
            },
        };
        let ghost vv = v@;
        match crate::host::utf8_to_string(v) {
            Some(s) => Ok(s),
            None => Err(FsError::InvalidUtf8),
        }
    }

    /// Reads a file as text, replacing invalid sequences instead of failing.
    pub fn fs_read_to_string_lossy(&self, path: &str) -> (r: Result<String, FsError>)
        requires
            self.wf(),
        ensures
            match r {
                Ok(s) => exists|v: Seq<u8>|
                    #[trigger] read_matches(
                        Ok(v),
                        self.tree(),
                        self.store(),
                        abs_comps_spec(self.cwd_view(), path@),
                    ) && s@ == crate::host::utf8_lossy(v) && (vstd::utf8::valid_utf8(v) ==> s@
                        == vstd::utf8::decode_utf8(v)),
                Err(e) => read_matches(
                    Err(e),
                    self.tree(),
                    self.store(),
                    abs_comps_spec(self.cwd_view(), path@),
                ),
            },
    {
        let v = match self.fs_read(path) {
            Ok(v) => v,
            Err(e) => {
                return Err(e);
            },
        };
        Ok(crate::host::utf8_to_string_lossy(v))
    }

    /// Removes the file at the path; a directory or symlink under the name
    /// is refused, even an empty directory.
    pub fn base_fs_remove_file(&mut self, path: &str) -> (r: Result<(), FsError>)
        requires
            old(self).wf(),
        ensures
            final(self).wf(),
            final(self).same_config(old(self)),
            final(self).store() == old(self).store(),
            remove_matches(
                r,
                old(self).tree(),
                final(self).tree(),
                abs_comps_spec(old(self).cwd_view(), path@),
            ),
    {
        let ghost comps0 = abs_comps_spec(self.cwd_view(), path@);
        let ghost tree0 = self.tree();
        let comps = self.abs_comps(path);
        let ghost nfiles = self.store().len() as nat;
        if comps.len() < 2 {
            return Err(FsError::InvalidRootPath);
        }
        let ghost parentv = comps0.drop_last();
        let mut parent = comps;
        let name = match parent.pop() {
            Some(n) => n,
            None => {
                proof {
                    assert(false);
                }
                return Err(FsError::InvalidRootPath);
            },
        };
        proof {
            crate::lookup::lemma_comps_view(&parent);
            assert(parent.deep_view() =~= parentv);
            assert(name@ == comps0.last());
        }
        let (pc, parent_info) = match resolve_follow(&self.root, parent, Ghost(nfiles)) {
            Ok(ResolveOk::Found { comps: c, info }) => (c, info),
            Ok(ResolveOk::NotFound { comps: nf }) => {
                proof {
                    assert(resolves_to(
                        tree0,
                        parentv,
                        ResolveSpec::NotFound { comps: nf.deep_view() },
                    ));
                }
                return Err(FsError::NotFound);
            },
            Err(e) => {
                return Err(e);
            },
        };
        let ghost pcv = pc.deep_view();
        let ghost dn = choose|node: NodeV|
            resolves_to(tree0, parentv, ResolveSpec::Found { comps: pcv, node })
                && #[trigger] info_matches(parent_info, node);
        proof {
            assert(resolves_to(tree0, parentv, ResolveSpec::Found { comps: pcv, node: dn }));
        }
        let st = match self.stat_child(&pc, name.as_str()) {
            Some(st) => st,
            None => {
                return Err(FsError::LeadsIntoFile);
            },
        };
        match st {
            ChildStat::FileAt { file_id: _ } => {
                let mut tmp: Vec<Node> = Vec::new();
                core::mem::swap(&mut self.root, &mut tmp);
                let (newroot, _removed) = remove_child_at(tmp, &pc, 0, name.as_str(), Ghost(nfiles));
                self.root = newroot;
                proof {
                    assert(self.tree() == remove_child(tree0, pcv, 0, name@));
                    let p = dirs_entries(tree0, pcv, 0);
                    crate::node::lemma_idx_of(p, name@);
                    assert forall|fid: int| crate::node::id_count(self.tree(), fid) <= 1 by {
                        crate::edit::lemma_remove_child_id(tree0, pcv, 0, name@, fid);
                    }
                    assert(crate::node::ids_unique(self.tree()));
                }
                Ok(())
            },
            ChildStat::DirAt | ChildStat::LinkAt => Err(FsError::NotAFile),
            ChildStat::Missing => Err(FsError::NotFound),
        }
    }

    /// Removes the file at the path.
    pub fn fs_remove_file(&mut self, path: &str) -> (r: Result<(), FsError>)
        requires
            old(self).wf(),
        ensures
            final(self).wf(),
            final(self).same_config(old(self)),
            final(self).store() == old(self).store(),
            remove_matches(
                r,
                old(self).tree(),
                final(self).tree(),
                abs_comps_spec(old(self).cwd_view(), path@),
            ),
    {
        self.base_fs_remove_file(path)
    }
}


/// One entry handed out by a directory read: an owned summary of a child.
pub struct InMemoryDirEntry {
    name: String,
    path: String,
    file_type: FileType,
    modified: u64,
}

impl InMemoryDirEntry {
    /// The entry's name.
    pub closed spec fn name_view(&self) -> Seq<char> {
        self.name@
    }

    /// The entry's path: the read directory's path with the name joined on.
    pub closed spec fn path_view(&self) -> Seq<char> {
        self.path@
    }

    /// The entry's kind.
    pub closed spec fn file_type_view(&self) -> FileType {
        self.file_type
    }

    /// The entry's modified time.
    pub closed spec fn modified_view(&self) -> u64 {
        self.modified
    }

    /// The entry's name.
    pub fn file_name(&self) -> (r: String)
        ensures
            r@ == self.name_view(),
    {
        self.name.clone()
    }

    /// The entry's kind.
    pub fn file_type(&self) -> (r: Result<FileType, FsError>)
        ensures
            r == Ok::<FileType, FsError>(self.file_type_view()),
    {
        Ok(self.file_type)
    }

    /// The entry's metadata.
    pub fn metadata(&self) -> (r: Result<InMemoryMetadata, FsError>)
        ensures
            r matches Ok(md) && md.file_type == self.file_type_view() && md.modified
                == self.modified_view(),
    {
        Ok(InMemoryMetadata { file_type: self.file_type, modified: self.modified })
    }

    /// The entry's path.
    pub fn path(&self) -> (r: String)
        ensures
            r@ == self.path_view(),
    {
        self.path.clone()
    }
}

/// Whether a handed-out entry summarizes a child node.
pub open spec fn entry_matches(
    e: InMemoryDirEntry,
    n: NodeV,
    store: Seq<FileDataV>,
    base: Seq<char>,
) -> bool {
    &&& e.name_view() == nv_name(n)
    &&& e.path_view() == path_join_str(base, nv_name(n))
    &&& match n {
        NodeV::File { file_id, .. } => e.file_type_view() == FileType::File && 0 <= file_id
            < store.len() && e.modified_view() == store[file_id].modified,
        NodeV::Dir { modified, .. } => e.file_type_view() == FileType::Dir && e.modified_view()
            == modified,
        NodeV::Symlink { modified, .. } => e.file_type_view() == FileType::Symlink
            && e.modified_view() == modified,
    }
}

/// After detaching a file and putting it straight back, every slot is
/// pointed at by at most one file node again.
proof fn lemma_restore_ids(
    tree0: Seq<NodeV>,
    tree1: Seq<NodeV>,
    tree2: Seq<NodeV>,
    fpc: Seq<Seq<char>>,
    fname: Seq<char>,
    fid: int,
    nfiles: nat,
)
    requires
        entries_wf(tree0, nfiles),
        crate::node::ids_unique(tree0),
        dirs_ok(tree0, fpc, 0),
        idx_of(dirs_entries(tree0, fpc, 0), fname) != -1,
        dirs_entries(tree0, fpc, 0)[idx_of(dirs_entries(tree0, fpc, 0), fname)] == (NodeV::File {
            name: fname,
            file_id: fid,
        }),
        tree1 == remove_child(tree0, fpc, 0, fname),
        tree2 == put_child(tree1, fpc, 0, NodeV::File { name: fname, file_id: fid }),
    ensures
        crate::node::ids_unique(tree2),
{
    let p = dirs_entries(tree0, fpc, 0);
    let k = idx_of(p, fname);
    crate::node::lemma_idx_of(p, fname);
    crate::edit::lemma_remove_child_props(tree0, fpc, 0, fname);
    crate::edit::lemma_dirs_entries_wf(tree0, fpc, 0, nfiles);
    crate::laws::lemma_remove_gone(p, fname);
    assert(dirs_entries(tree1, fpc, 0) == p.remove(k));
    let nd = NodeV::File { name: fname, file_id: fid };
    assert forall|fid2: int| crate::node::id_count(tree2, fid2) <= 1 by {
        crate::edit::lemma_remove_child_id(tree0, fpc, 0, fname, fid2);
        crate::edit::lemma_put_child_id(tree1, fpc, 0, nd, fid2);
    }
}

/// Whether the destination name holds a directory in the given tree.
pub open spec fn dest_is_dir_spec(t1: Seq<NodeV>, tpc: Seq<Seq<char>>, tname: Seq<char>) -> bool {
    &&& dirs_ok(t1, tpc, 0)
    &&& idx_of(dirs_entries(t1, tpc, 0), tname) != -1
    &&& dirs_entries(t1, tpc, 0)[idx_of(dirs_entries(t1, tpc, 0), tname)] matches NodeV::Dir { .. }
}

/// Whether a rename answer reports the right outcome and effect, each
/// failure tied to its condition. The source is detached before the
/// destination is examined, so a failure past that point leaves the tree
/// with the detached entry put straight back — which restores it exactly.
pub open spec fn rename_matches(
    r: Result<(), FsError>,
    tree: Seq<NodeV>,
    tree2: Seq<NodeV>,
    fcomps: Seq<Seq<char>>,
    tcomps: Seq<Seq<char>>,
    now: u64,
) -> bool {
    if fcomps.len() < 2 || tcomps.len() < 2 {
        r == Err::<(), FsError>(FsError::InvalidRootPath) && tree2 == tree
    } else {
        let fparent = fcomps.drop_last();
        let fname = fcomps.last();
        let tparent = tcomps.drop_last();
        let tname = tcomps.last();
        match r {
            Ok(()) => exists|fpc: Seq<Seq<char>>, tpc: Seq<Seq<char>>, fid: int|
                {
                    &&& #[trigger] file_at(tree, fparent, fpc, fname, fid)
                    &&& #[trigger] resolved_target(remove_child(tree, fpc, 0, fname), tparent, tpc)
                    &&& !dirs_blocked(remove_child(tree, fpc, 0, fname), tpc, 0)
                    &&& !dest_is_dir_spec(remove_child(tree, fpc, 0, fname), tpc, tname)
                    &&& tree2 == put_child(
                        with_dirs(remove_child(tree, fpc, 0, fname), tpc, 0, now),
                        tpc,
                        0,
                        NodeV::File { name: tname, file_id: fid },
                    )
                },
            Err(FsError::NotFound) => tree2 == tree && ((exists|c: Seq<Seq<char>>|
                resolves_to(tree, fparent, ResolveSpec::NotFound { comps: c })) || (exists|
                pc: Seq<Seq<char>>,
                dn: NodeV,
            |
                #[trigger] resolves_to(tree, fparent, ResolveSpec::Found { comps: pc, node: dn })
                    && dirs_ok(tree, pc, 0) && idx_of(dirs_entries(tree, pc, 0), fname) == -1)),
            Err(FsError::NotAFile) => tree2 == tree && exists|pc: Seq<Seq<char>>, dn: NodeV|
                #[trigger] resolves_to(tree, fparent, ResolveSpec::Found { comps: pc, node: dn })
                    && dirs_ok(tree, pc, 0) && idx_of(dirs_entries(tree, pc, 0), fname) != -1 && !(
                dirs_entries(tree, pc, 0)[idx_of(dirs_entries(tree, pc, 0), fname)]
                    matches NodeV::File { .. }),
            Err(FsError::RenameOntoDirectory) => exists|fpc: Seq<Seq<char>>, tpc: Seq<Seq<char>>, fid: int|
                {
                    &&& #[trigger] file_at(tree, fparent, fpc, fname, fid)
                    &&& #[trigger] resolved_target(remove_child(tree, fpc, 0, fname), tparent, tpc)
                    &&& dest_is_dir_spec(remove_child(tree, fpc, 0, fname), tpc, tname)
                    &&& tree2 == put_child(
                        remove_child(tree, fpc, 0, fname),
                        fpc,
                        0,
                        NodeV::File { name: fname, file_id: fid },
                    )
                },
            Err(FsError::LeadsIntoFile) => (tree2 == tree && (resolves_to(
                tree,
                fparent,
                ResolveSpec::IntoFile,
            ) || (exists|pc: Seq<Seq<char>>, dn: NodeV|
                #[trigger] resolves_to(tree, fparent, ResolveSpec::Found { comps: pc, node: dn })
                    && !dirs_ok(tree, pc, 0)))) || (exists|fpc: Seq<Seq<char>>, fid: int|
                {
                    &&& #[trigger] file_at(tree, fparent, fpc, fname, fid)
                    &&& (resolve_errs(
                        remove_child(tree, fpc, 0, fname),
                        tparent,
                        FsError::LeadsIntoFile,
                    ) || exists|tpc: Seq<Seq<char>>|
                        #[trigger] resolved_target(remove_child(tree, fpc, 0, fname), tparent, tpc)
                            && dirs_blocked(remove_child(tree, fpc, 0, fname), tpc, 0))
                    &&& tree2 == put_child(
                        remove_child(tree, fpc, 0, fname),
                        fpc,
                        0,
                        NodeV::File { name: fname, file_id: fid },
                    )
                }),
            Err(e) => (tree2 == tree && resolve_errs(tree, fparent, e)) || (exists|
                fpc: Seq<Seq<char>>,
                fid: int,
            |
                {
                    &&& #[trigger] file_at(tree, fparent, fpc, fname, fid)
                    &&& resolve_errs(remove_child(tree, fpc, 0, fname), tparent, e)
                    &&& tree2 == put_child(
                        remove_child(tree, fpc, 0, fname),
                        fpc,
                        0,
                        NodeV::File { name: fname, file_id: fid },
                    )
                }),
        }
    }
}

impl InMemorySys {
    /// Renames a file. The source must be a file; an existing destination
    /// file is replaced in place, an existing destination directory is
    /// refused with the source put back, and missing destination parent
    /// directories are created. The source entry is detached first and put
    /// back on any later failure, so no entry is ever lost.
    pub fn base_fs_rename(&mut self, from: &str, to: &str) -> (r: Result<(), FsError>)
        requires
            old(self).wf(),
        ensures
            final(self).wf(),
            final(self).same_config(old(self)),
            final(self).store() == old(self).store(),
            exists|now: u64|
                #[trigger] stamp(now, old(self).time_view()) && rename_matches(
                    r,
                    old(self).tree(),
                    final(self).tree(),
                    abs_comps_spec(old(self).cwd_view(), from@),
                    abs_comps_spec(old(self).cwd_view(), to@),
                    now,
                ),
    {
        let now = self.sys_time_now();
        let ghost tree0 = self.tree();
        let ghost fcomps = abs_comps_spec(self.cwd_view(), from@);
        let ghost tcomps = abs_comps_spec(self.cwd_view(), to@);
        let ghost nfiles = self.store().len() as nat;
        let from_comps = self.abs_comps(from);
        let to_comps = self.abs_comps(to);
        if from_comps.len() < 2 || to_comps.len() < 2 {
            proof {
                assert(stamp(now, old(self).time_view()));
                assert(rename_matches(
                    Err::<(), FsError>(FsError::InvalidRootPath),
                    tree0,
                    self.tree(),
                    fcomps,
                    tcomps,
                    now,
                ));
            }
            return Err(FsError::InvalidRootPath);
        }
        let ghost fparent = fcomps.drop_last();
        let mut fparent_comps = from_comps;
        let fname = match fparent_comps.pop() {
            Some(n) => n,
            None => {
                proof {
                    assert(false);
                }
                return Err(FsError::InvalidRootPath);
            },
        };
        proof {
            crate::lookup::lemma_comps_view(&fparent_comps);
            assert(fparent_comps.deep_view() =~= fparent);
            assert(fname@ == fcomps.last());
        }
        let (fpc, from_info) = match resolve_follow(&self.root, fparent_comps, Ghost(nfiles)) {
            Ok(ResolveOk::Found { comps: c, info }) => (c, info),
            Ok(ResolveOk::NotFound { comps: nf }) => {
                proof {
                    assert(stamp(now, old(self).time_view()));
                    assert(resolves_to(
                        tree0,
                        fparent,
                        ResolveSpec::NotFound { comps: nf.deep_view() },
                    ));
                }
                return Err(FsError::NotFound);
            },
            Err(e) => {
                proof {
                    assert(stamp(now, old(self).time_view()));
                }
                return Err(e);
            },
        };
        let ghost fpcv = fpc.deep_view();
        let ghost fdn = choose|node: NodeV|
            resolves_to(tree0, fparent, ResolveSpec::Found { comps: fpcv, node })
                && #[trigger] info_matches(from_info, node);
        proof {
            assert(resolves_to(tree0, fparent, ResolveSpec::Found { comps: fpcv, node: fdn }));
        }
        let fid = match self.stat_child(&fpc, fname.as_str()) {
            Some(ChildStat::FileAt { file_id }) => file_id,
            Some(ChildStat::Missing) => {
                proof {
                    assert(stamp(now, old(self).time_view()));
                    assert(dirs_ok(tree0, fpcv, 0));
                    assert(idx_of(dirs_entries(tree0, fpcv, 0), fname@) == -1);
                    assert(rename_matches(
                        Err::<(), FsError>(FsError::NotFound),
                        tree0,
                        self.tree(),
                        fcomps,
                        tcomps,
                        now,
                    ));
                }
                return Err(FsError::NotFound);
            },
            Some(st) => {
                proof {
                    assert(stamp(now, old(self).time_view()));
                    let p = dirs_entries(tree0, fpcv, 0);
                    let k = idx_of(p, fname@);
                    crate::node::lemma_idx_of(p, fname@);
                    assert(rename_matches(
                        Err::<(), FsError>(FsError::NotAFile),
                        tree0,
                        self.tree(),
                        fcomps,
                        tcomps,
                        now,
                    ));
                }
                return Err(FsError::NotAFile);
            },
            None => {
                proof {
                    assert(stamp(now, old(self).time_view()));
                    assert(!dirs_ok(tree0, fpcv, 0));
                    assert(rename_matches(
                        Err::<(), FsError>(FsError::LeadsIntoFile),
                        tree0,
                        self.tree(),
                        fcomps,
                        tcomps,
                        now,
                    ));
                }
                return Err(FsError::LeadsIntoFile);
            },
        };
        proof {
            let p = dirs_entries(tree0, fpcv, 0);
            let k = idx_of(p, fname@);
            crate::node::lemma_idx_of(p, fname@);
            assert(p[k] == (NodeV::File { name: fname@, file_id: fid as int }));
            assert(file_at(tree0, fparent, fpcv, fname@, fid as int));
        }
        // detach the source before examining the destination; every later
        // failure puts it back, so no entry is ever lost
        let mut tmp: Vec<Node> = Vec::new();
        core::mem::swap(&mut self.root, &mut tmp);
        let (root1, removed) = remove_child_at(tmp, &fpc, 0, fname.as_str(), Ghost(nfiles));
        self.root = root1;
        let ghost tree1 = self.tree();
        proof {
            assert(tree1 == remove_child(tree0, fpcv, 0, fname@));
            crate::edit::lemma_remove_child_props(tree0, fpcv, 0, fname@);
        }
        let removed_node = match removed {
            Some(n) => n,
            None => {
                proof {
                    let p = dirs_entries(tree0, fpcv, 0);
                    crate::node::lemma_idx_of(p, fname@);
                    assert(false);
                }
                return Err(FsError::NotFound);
            },
        };
        let ghost tparent = tcomps.drop_last();
        let mut tparent_comps = to_comps;
        let tname = match tparent_comps.pop() {
            Some(n) => n,
            None => {
                proof {
                    assert(false);
                }
                return Err(FsError::InvalidRootPath);
            },
        };
        proof {
            crate::lookup::lemma_comps_view(&tparent_comps);
            assert(tparent_comps.deep_view() =~= tparent);
            assert(tname@ == tcomps.last());
        }
        let tpc = match resolve_follow(&self.root, tparent_comps, Ghost(nfiles)) {
            Ok(ResolveOk::Found { comps: c, info: _ }) => c,
            Ok(ResolveOk::NotFound { comps: c }) => c,
            Err(e) => {
                let mut tmp2: Vec<Node> = Vec::new();
                core::mem::swap(&mut self.root, &mut tmp2);
                let restored = put_child_at(tmp2, &fpc, 0, removed_node, Ghost(nfiles));
                self.root = restored;
                proof {
                    assert(self.tree() == put_child(
                        tree1,
                        fpcv,
                        0,
                        NodeV::File { name: fname@, file_id: fid as int },
                    ));
                    lemma_restore_ids(tree0, tree1, self.tree(), fpcv, fname@, fid as int, nfiles);
                    assert(stamp(now, old(self).time_view()));
                    assert(resolve_errs(tree1, tparent, e));
                    assert(rename_matches(Err::<(), FsError>(e), tree0, self.tree(), fcomps, tcomps, now));
                }
                return Err(e);
            },
        };
        let ghost tpcv = tpc.deep_view();
        proof {
            assert(resolved_target(tree1, tparent, tpcv));
        }
        if crate::edit::blocked_at(&self.root, &tpc, 0, Ghost(nfiles)) {
            let mut tmp2: Vec<Node> = Vec::new();
            core::mem::swap(&mut self.root, &mut tmp2);
            let restored = put_child_at(tmp2, &fpc, 0, removed_node, Ghost(nfiles));
            self.root = restored;
            proof {
                assert(stamp(now, old(self).time_view()));
                assert(dirs_blocked(tree1, tpcv, 0));
                assert(self.tree() == put_child(
                    tree1,
                    fpcv,
                    0,
                    NodeV::File { name: fname@, file_id: fid as int },
                ));
                lemma_restore_ids(tree0, tree1, self.tree(), fpcv, fname@, fid as int, nfiles);
                assert(rename_matches(
                    Err::<(), FsError>(FsError::LeadsIntoFile),
                    tree0,
                    self.tree(),
                    fcomps,
                    tcomps,
                    now,
                ));
            }
            return Err(FsError::LeadsIntoFile);
        }
        // an existing destination directory is checked before any directory
        // is created, so the refusal leaves only the detach to undo
        let ghost t1p = dirs_entries(tree1, tpcv, 0);
        let dest_is_dir = match dir_entries_at(&self.root, &tpc, 0, Ghost(nfiles)) {
            Some(entries) => {
                let found = crate::node::find_entry(entries, tname.as_str());
                proof {
                    crate::node::lemma_find_entry_view(entries@, tname@, found);
                    crate::node::lemma_entries_view(entries@);
                }
                match found {
                    Some(k) => {
                        proof {
                            assert(t1p[k as int] == node_view(entries@[k as int]));
                            assert(idx_of(t1p, tname@) == k as int);
                        }
                        match &entries[k] {
                            Node::Dir { .. } => {
                                proof {
                                    assert(dest_is_dir_spec(tree1, tpcv, tname@));
                                }
                                true
                            },
                            _ => {
                                proof {
                                    assert(!(t1p[k as int] matches NodeV::Dir { .. }));
                                    assert(!dest_is_dir_spec(tree1, tpcv, tname@));
                                }
                                false
                            },
                        }
                    },
                    None => {
                        proof {
                            assert(idx_of(t1p, tname@) == -1);
                            assert(!dest_is_dir_spec(tree1, tpcv, tname@));
                        }
                        false
                    },
                }
            },
            None => {
                proof {
                    assert(!dirs_ok(tree1, tpcv, 0));
                    assert(!dest_is_dir_spec(tree1, tpcv, tname@));
                }
                false
            },
        };
        proof {
            assert(dest_is_dir == dest_is_dir_spec(tree1, tpcv, tname@));
        }
        if dest_is_dir {
            let mut tmp2: Vec<Node> = Vec::new();
            core::mem::swap(&mut self.root, &mut tmp2);
            let restored = put_child_at(tmp2, &fpc, 0, removed_node, Ghost(nfiles));
            self.root = restored;
            proof {
                assert(stamp(now, old(self).time_view()));
                assert(self.tree() == put_child(
                    tree1,
                    fpcv,
                    0,
                    NodeV::File { name: fname@, file_id: fid as int },
                ));
                lemma_restore_ids(tree0, tree1, self.tree(), fpcv, fname@, fid as int, nfiles);
                assert(rename_matches(
                    Err::<(), FsError>(FsError::RenameOntoDirectory),
                    tree0,
                    self.tree(),
                    fcomps,
                    tcomps,
                    now,
                ));
            }
            return Err(FsError::RenameOntoDirectory);
        }
        let mut tmp2: Vec<Node> = Vec::new();
        core::mem::swap(&mut self.root, &mut tmp2);
        let root2 = create_dirs_at(tmp2, &tpc, 0, now, Ghost(nfiles));
        self.root = root2;
        proof {
            assert(self.tree() == with_dirs(tree1, tpcv, 0, now));
            crate::edit::lemma_with_dirs_ok(tree1, tpcv, 0, now);
        }
        let newnode = Node::File { name: tname, file_id: fid };
        let mut tmp3: Vec<Node> = Vec::new();
        core::mem::swap(&mut self.root, &mut tmp3);
        let root3 = put_child_at(tmp3, &tpc, 0, newnode, Ghost(nfiles));
        self.root = root3;
        proof {
            assert(self.tree() == put_child(
                with_dirs(tree1, tpcv, 0, now),
                tpcv,
                0,
                NodeV::File { name: tname@, file_id: fid as int },
            ));
            let p = dirs_entries(tree0, fpcv, 0);
            crate::node::lemma_idx_of(p, fname@);
            let t2 = with_dirs(tree1, tpcv, 0, now);
            let nd = NodeV::File { name: tname@, file_id: fid as int };
            assert forall|fid2: int| crate::node::id_count(self.tree(), fid2) <= 1 by {
                crate::edit::lemma_remove_child_id(tree0, fpcv, 0, fname@, fid2);
                crate::edit::lemma_with_dirs_id(tree1, tpcv, 0, now, fid2);
                crate::edit::lemma_put_child_id(t2, tpcv, 0, nd, fid2);
                let p2 = dirs_entries(t2, tpcv, 0);
                let k2 = idx_of(p2, tname@);
                if k2 != -1 {
                    crate::node::lemma_idx_of(p2, tname@);
                }
            }
            assert(crate::node::ids_unique(self.tree()));
            assert(stamp(now, old(self).time_view()));
            assert(rename_matches(
                Ok::<(), FsError>(()),
                tree0,
                self.tree(),
                fcomps,
                tcomps,
                now,
            ));
        }
        Ok(())
    }

    /// Renames a file.
    pub fn fs_rename(&mut self, from: &str, to: &str) -> (r: Result<(), FsError>)
        requires
            old(self).wf(),
        ensures
            final(self).wf(),
            final(self).same_config(old(self)),
            final(self).store() == old(self).store(),
            exists|now: u64|
                #[trigger] stamp(now, old(self).time_view()) && rename_matches(
                    r,
                    old(self).tree(),
                    final(self).tree(),
                    abs_comps_spec(old(self).cwd_view(), from@),
                    abs_comps_spec(old(self).cwd_view(), to@),
                    now,
                ),
    {
        self.base_fs_rename(from, to)
    }
}

/// Whether a hard-link answer reports the right outcome and effect: success
/// iff the source resolves to a file and the destination accepts a whole-file
/// write of its bytes; each failure is the source resolution's or the
/// destination write's own.
pub open spec fn hard_link_matches(
    r: Result<(), FsError>,
    tree: Seq<NodeV>,
    store: Seq<FileDataV>,
    tree2: Seq<NodeV>,
    store2: Seq<FileDataV>,
    scomps: Seq<Seq<char>>,
    dcomps: Seq<Seq<char>>,
    tv: Option<u64>,
) -> bool {
    match r {
        Ok(()) => exists|c: Seq<Seq<char>>, nm: Seq<char>, fid: int, now: u64|
            #[trigger] resolves_to(
                tree,
                scomps,
                ResolveSpec::Found { comps: c, node: NodeV::File { name: nm, file_id: fid } },
            ) && 0 <= fid < store.len() && #[trigger] stamp(now, tv) && write_matches(
                Ok(()),
                tree,
                store,
                tree2,
                store2,
                dcomps,
                store[fid].data,
                now,
            ),
        Err(FsError::HardLinkNotAFile) => tree2 == tree && store2 == store && exists|
            c: Seq<Seq<char>>,
            node: NodeV,
        |
            #[trigger] resolves_to(tree, scomps, ResolveSpec::Found { comps: c, node }) && !(node
                matches NodeV::File { .. }),
        Err(e) => tree2 == tree && store2 == store && ((e == FsError::NotFound && exists|
            c: Seq<Seq<char>>,
        | resolves_to(tree, scomps, ResolveSpec::NotFound { comps: c })) || resolve_errs(
            tree,
            scomps,
            e,
        ) || (exists|c: Seq<Seq<char>>, nm: Seq<char>, fid: int, now: u64|
            #[trigger] resolves_to(
                tree,
                scomps,
                ResolveSpec::Found { comps: c, node: NodeV::File { name: nm, file_id: fid } },
            ) && 0 <= fid < store.len() && #[trigger] stamp(now, tv) && write_matches(
                Err(e),
                tree,
                store,
                tree,
                store,
                dcomps,
                store[fid].data,
                now,
            ))),
    }
}

/// Whether a symlink-creation answer reports the right outcome and effect.
pub open spec fn symlink_matches(
    r: Result<(), FsError>,
    tree: Seq<NodeV>,
    tree2: Seq<NodeV>,
    lcomps: Seq<Seq<char>>,
    target: Seq<char>,
    now: u64,
) -> bool {
    if lcomps.len() < 2 {
        r == Err::<(), FsError>(FsError::InvalidRootPath) && tree2 == tree
    } else {
        let parent = lcomps.drop_last();
        let name = lcomps.last();
        match r {
            Ok(()) => exists|pc: Seq<Seq<char>>, dn: NodeV|
                #[trigger] resolves_to(tree, parent, ResolveSpec::Found { comps: pc, node: dn })
                    && dirs_ok(tree, pc, 0) && !(idx_of(dirs_entries(tree, pc, 0), name) != -1 && (
                dirs_entries(tree, pc, 0)[idx_of(dirs_entries(tree, pc, 0), name)]
                    matches NodeV::Dir { .. })) && tree2 == put_child(
                    tree,
                    pc,
                    0,
                    NodeV::Symlink { name, target, created: now, modified: now },
                ),
            Err(FsError::AlreadyExists) => tree2 == tree && exists|pc: Seq<Seq<char>>, dn: NodeV|
                #[trigger] resolves_to(tree, parent, ResolveSpec::Found { comps: pc, node: dn })
                    && dirs_ok(tree, pc, 0) && idx_of(dirs_entries(tree, pc, 0), name) != -1 && (
                dirs_entries(tree, pc, 0)[idx_of(dirs_entries(tree, pc, 0), name)]
                    matches NodeV::Dir { .. }),
            Err(FsError::NotFound) => tree2 == tree && exists|c: Seq<Seq<char>>|
                resolves_to(tree, parent, ResolveSpec::NotFound { comps: c }),
            Err(FsError::LeadsIntoFile) => tree2 == tree && (resolves_to(
                tree,
                parent,
                ResolveSpec::IntoFile,
            ) || (exists|pc: Seq<Seq<char>>, dn: NodeV|
                #[trigger] resolves_to(tree, parent, ResolveSpec::Found { comps: pc, node: dn })
                    && !dirs_ok(tree, pc, 0))),
            Err(e) => tree2 == tree && resolve_errs(tree, parent, e),
        }
    }
}

impl InMemorySys {
    /// Creates a symlink at `link` holding `original` verbatim; the target
    /// is resolved lazily at lookup time. An existing file or symlink under
    /// the name is overwritten, an existing directory is refused.
    pub fn base_fs_symlink_file(&mut self, original: &str, link: &str) -> (r: Result<(), FsError>)
        requires
            old(self).wf(),
        ensures
            final(self).wf(),
            final(self).same_config(old(self)),
            final(self).store() == old(self).store(),
            exists|now: u64|
                #[trigger] stamp(now, old(self).time_view()) && symlink_matches(
                    r,
                    old(self).tree(),
                    final(self).tree(),
                    abs_comps_spec(old(self).cwd_view(), link@),
                    original@,
                    now,
                ),
    {
        let now = self.sys_time_now();
        let ghost tree0 = self.tree();
        let ghost lcomps = abs_comps_spec(self.cwd_view(), link@);
        let ghost nfiles = self.store().len() as nat;
        let comps = self.abs_comps(link);
        if comps.len() < 2 {
            proof {
                assert(stamp(now, old(self).time_view()));
            }
            return Err(FsError::InvalidRootPath);
        }
        let ghost parentv = lcomps.drop_last();
        let mut parent = comps;
        let name = match parent.pop() {
            Some(n) => n,
            None => {
                proof {
                    assert(false);
                }
                return Err(FsError::InvalidRootPath);
            },
        };
        proof {
            crate::lookup::lemma_comps_view(&parent);
            assert(parent.deep_view() =~= parentv);
            assert(name@ == lcomps.last());
        }
        let (pc, parent_info) = match resolve_follow(&self.root, parent, Ghost(nfiles)) {
            Ok(ResolveOk::Found { comps: c, info }) => (c, info),
            Ok(ResolveOk::NotFound { comps: nf }) => {
                proof {
                    assert(stamp(now, old(self).time_view()));
                    assert(resolves_to(
                        tree0,
                        parentv,
                        ResolveSpec::NotFound { comps: nf.deep_view() },
                    ));
                }
                return Err(FsError::NotFound);
            },
            Err(e) => {
                proof {
                    assert(stamp(now, old(self).time_view()));
                }
                return Err(e);
            },
        };
        let ghost pcv = pc.deep_view();
        let ghost dn = choose|node: NodeV|
            resolves_to(tree0, parentv, ResolveSpec::Found { comps: pcv, node })
                && #[trigger] info_matches(parent_info, node);
        proof {
            assert(resolves_to(tree0, parentv, ResolveSpec::Found { comps: pcv, node: dn }));
        }
        match self.stat_child(&pc, name.as_str()) {
            Some(ChildStat::DirAt) => {
                proof {
                    assert(stamp(now, old(self).time_view()));
                    let p = dirs_entries(tree0, pcv, 0);
                    crate::node::lemma_idx_of(p, name@);
                    assert(symlink_matches(
                        Err::<(), FsError>(FsError::AlreadyExists),
                        tree0,
                        self.tree(),
                        lcomps,
                        original@,
                        now,
                    ));
                }
                return Err(FsError::AlreadyExists);
            },
            Some(st) => {
                proof {
                    let p = dirs_entries(tree0, pcv, 0);
                    crate::node::lemma_idx_of(p, name@);
                }
            },
            None => {
                proof {
                    assert(stamp(now, old(self).time_view()));
                }
                return Err(FsError::LeadsIntoFile);
            },
        }
        let mut target = String::new();
        target.append(original);
        let node = Node::Symlink { name, target, created: now, modified: now };
        let mut tmp: Vec<Node> = Vec::new();
        core::mem::swap(&mut self.root, &mut tmp);
        let newroot = put_child_at(tmp, &pc, 0, node, Ghost(nfiles));
        self.root = newroot;
        proof {
            assert(self.tree() == put_child(
                tree0,
                pcv,
                0,
                NodeV::Symlink { name: lcomps.last(), target: original@, created: now, modified: now },
            ));
            let nd = NodeV::Symlink {
                name: lcomps.last(),
                target: original@,
                created: now,
                modified: now,
            };
            assert forall|fid: int| crate::node::id_count(self.tree(), fid) <= 1 by {
                crate::edit::lemma_put_child_id(tree0, pcv, 0, nd, fid);
                assert(crate::node::node_id_count(nd, fid) == 0);
            }
            assert(crate::node::ids_unique(self.tree()));
            assert(stamp(now, old(self).time_view()));
            assert(symlink_matches(
                Ok::<(), FsError>(()),
                tree0,
                self.tree(),
                lcomps,
                original@,
                now,
            ));
        }
        Ok(())
    }

    /// Creates a symlink at `link` holding `original` verbatim.
    pub fn fs_symlink_file(&mut self, original: &str, link: &str) -> (r: Result<(), FsError>)
        requires
            old(self).wf(),
        ensures
            final(self).wf(),
            final(self).same_config(old(self)),
            final(self).store() == old(self).store(),
            exists|now: u64|
                #[trigger] stamp(now, old(self).time_view()) && symlink_matches(
                    r,
                    old(self).tree(),
                    final(self).tree(),
                    abs_comps_spec(old(self).cwd_view(), link@),
                    original@,
                    now,
                ),
    {
        self.base_fs_symlink_file(original, link)
    }

    /// Creates a directory symlink; in this emulation the same as a file
    /// symlink.
    pub fn base_fs_symlink_dir(&mut self, original: &str, link: &str) -> (r: Result<(), FsError>)
        requires
            old(self).wf(),
        ensures
            final(self).wf(),
            final(self).same_config(old(self)),
            final(self).store() == old(self).store(),
            exists|now: u64|
                #[trigger] stamp(now, old(self).time_view()) && symlink_matches(
                    r,
                    old(self).tree(),
                    final(self).tree(),
                    abs_comps_spec(old(self).cwd_view(), link@),
                    original@,
                    now,
                ),
    {
        self.base_fs_symlink_file(original, link)
    }

    /// Creates a directory symlink.
    pub fn fs_symlink_dir(&mut self, original: &str, link: &str) -> (r: Result<(), FsError>)
        requires
            old(self).wf(),
        ensures
            final(self).wf(),
            final(self).same_config(old(self)),
            final(self).store() == old(self).store(),
            exists|now: u64|
                #[trigger] stamp(now, old(self).time_view()) && symlink_matches(
                    r,
                    old(self).tree(),
                    final(self).tree(),
                    abs_comps_spec(old(self).cwd_view(), link@),
                    original@,
                    now,
                ),
    {
        self.base_fs_symlink_dir(original, link)
    }

    /// Emulates a hard link by copying the source file's bytes into a new,
    /// independent file at `dst`: the two paths do not share storage
    /// afterwards, a documented divergence from the usual hard links.
    pub fn base_fs_hard_link(&mut self, src: &str, dst: &str) -> (r: Result<(), FsError>)
        requires
            old(self).wf(),
        ensures
            final(self).wf(),
            final(self).same_config(old(self)),
            !r.is_ok() ==> final(self).tree() == old(self).tree() && final(self).store() == old(
                self,
            ).store(),
            hard_link_matches(
                r,
                old(self).tree(),
                old(self).store(),
                final(self).tree(),
                final(self).store(),
                abs_comps_spec(old(self).cwd_view(), src@),
                abs_comps_spec(old(self).cwd_view(), dst@),
                old(self).time_view(),
            ),
    {
        let ghost tree0 = self.tree();
        let ghost scomps = abs_comps_spec(self.cwd_view(), src@);
        let ghost nfiles = self.store().len() as nat;
        let comps = self.abs_comps(src);
        let (c, info) = match resolve_follow(&self.root, comps, Ghost(nfiles)) {
            Ok(ResolveOk::Found { comps: c, info }) => (c, info),
            Ok(ResolveOk::NotFound { comps: nf }) => {
                proof {
                    assert(resolves_to(
                        tree0,
                        scomps,
                        ResolveSpec::NotFound { comps: nf.deep_view() },
                    ));
                }
                return Err(FsError::NotFound);
            },
            Err(e) => {
                proof {
                    assert(resolve_errs(tree0, scomps, e));
                }
                return Err(e);
            },
        };
        let fid = match info {
            NodeInfo::File { file_id } => file_id,
            other => {
                proof {
                    let node = choose|node: NodeV|
                        resolves_to(
                            tree0,
                            scomps,
                            ResolveSpec::Found { comps: c.deep_view(), node },
                        ) && #[trigger] info_matches(other, node);
                    assert(resolves_to(
                        tree0,
                        scomps,
                        ResolveSpec::Found { comps: c.deep_view(), node },
                    ));
                    assert(!(node matches NodeV::File { .. }));
                }
                return Err(FsError::HardLinkNotAFile);
            },
        };
        proof {
            let node = choose|node: NodeV|
                resolves_to(tree0, scomps, ResolveSpec::Found { comps: c.deep_view(), node })
                    && #[trigger] info_matches(NodeInfo::File { file_id: fid }, node);
            let k = choose|k: nat|
                resolve_at(tree0, scomps, Seq::empty(), k) == (ResolveSpec::Found {
                    comps: c.deep_view(),
                    node,
                });
            lemma_resolve_found_wf(tree0, scomps, Seq::empty(), k, nfiles);
            assert(node matches NodeV::File { .. });
        }
        let data = vstd::slice::slice_to_vec(self.files[fid].data.as_slice());
        let ghost store0 = self.store();
        let ghost dcomps = abs_comps_spec(self.cwd_view(), dst@);
        let r = self.base_fs_write(dst, data.as_slice());
        match r {
            Ok(()) => {
                proof {
                    let node = choose|node: NodeV|
                        resolves_to(
                            tree0,
                            scomps,
                            ResolveSpec::Found { comps: c.deep_view(), node },
                        ) && #[trigger] info_matches(NodeInfo::File { file_id: fid }, node);
                    let now = choose|now: u64|
                        #[trigger] stamp(now, old(self).time_view()) && write_matches(
                            Ok::<(), FsError>(()),
                            tree0,
                            store0,
                            self.tree(),
                            self.store(),
                            dcomps,
                            data@,
                            now,
                        );
                    match node {
                        NodeV::File { name: nm, file_id: fidv } => {
                            assert(fidv == fid as int);
                            assert(data@ == store0[fid as int].data);
                            assert(resolves_to(
                                tree0,
                                scomps,
                                ResolveSpec::Found {
                                    comps: c.deep_view(),
                                    node: NodeV::File { name: nm, file_id: fidv },
                                },
                            ));
                        },
                        _ => {
                            assert(false);
                        },
                    }
                }
                Ok(())
            },
            Err(e) => {
                proof {
                    let node = choose|node: NodeV|
                        resolves_to(
                            tree0,
                            scomps,
                            ResolveSpec::Found { comps: c.deep_view(), node },
                        ) && #[trigger] info_matches(NodeInfo::File { file_id: fid }, node);
                    let now = choose|now: u64|
                        #[trigger] stamp(now, old(self).time_view()) && write_matches(
                            Err::<(), FsError>(e),
                            tree0,
                            store0,
                            self.tree(),
                            self.store(),
                            dcomps,
                            data@,
                            now,
                        );
                    match node {
                        NodeV::File { name: nm, file_id: fidv } => {
                            assert(fidv == fid as int);
                            assert(data@ == store0[fid as int].data);
                            assert(resolves_to(
                                tree0,
                                scomps,
                                ResolveSpec::Found {
                                    comps: c.deep_view(),
                                    node: NodeV::File { name: nm, file_id: fidv },
                                },
                            ));
                        },
                        _ => {
                            assert(false);
                        },
                    }
                }
                Err(e)
            },
        }
    }

    /// Emulates a hard link by copying.
    pub fn fs_hard_link(&mut self, src: &str, dst: &str) -> (r: Result<(), FsError>)
        requires
            old(self).wf(),
        ensures
            final(self).wf(),
            final(self).same_config(old(self)),
            !r.is_ok() ==> final(self).tree() == old(self).tree() && final(self).store() == old(
                self,
            ).store(),
            hard_link_matches(
                r,
                old(self).tree(),
                old(self).store(),
                final(self).tree(),
                final(self).store(),
                abs_comps_spec(old(self).cwd_view(), src@),
                abs_comps_spec(old(self).cwd_view(), dst@),
                old(self).time_view(),
            ),
    {
        self.base_fs_hard_link(src, dst)
    }

    /// Reads a directory: a finite list of its entries, sorted by name, each
    /// carrying the name, the entry's path under the path as given, its kind
    /// and its modified time.
    pub fn base_fs_read_dir(&self, path: &str) -> (r: Result<Vec<InMemoryDirEntry>, FsError>)
        requires
            self.wf(),
        ensures
            match r {
                Ok(v) => exists|c: Seq<Seq<char>>, dn: NodeV|
                    #[trigger] resolves_to(
                        self.tree(),
                        abs_comps_spec(self.cwd_view(), path@),
                        ResolveSpec::Found { comps: c, node: dn },
                    ) && (dn matches NodeV::Dir { entries, .. } && v@.len() == entries.len()
                        && forall|k: int|
                        0 <= k < entries.len() ==> entry_matches(
                            v@[k],
                            #[trigger] entries[k],
                            self.store(),
                            path@,
                        )),
                Err(FsError::NotADirectory) => exists|c: Seq<Seq<char>>, dn: NodeV|
                    #[trigger] resolves_to(
                        self.tree(),
                        abs_comps_spec(self.cwd_view(), path@),
                        ResolveSpec::Found { comps: c, node: dn },
                    ) && !(dn matches NodeV::Dir { .. }),
                Err(FsError::NotFound) => exists|c: Seq<Seq<char>>|
                    resolves_to(
                        self.tree(),
                        abs_comps_spec(self.cwd_view(), path@),
                        ResolveSpec::NotFound { comps: c },
                    ),
                Err(e) => resolve_errs(self.tree(), abs_comps_spec(self.cwd_view(), path@), e),
            },
    {
        let ghost tree0 = self.tree();
        let ghost acomps = abs_comps_spec(self.cwd_view(), path@);
        let ghost nfiles = self.store().len() as nat;
        let comps = self.abs_comps(path);
        let (c, info) = match resolve_follow(&self.root, comps, Ghost(nfiles)) {
            Ok(ResolveOk::Found { comps: c, info }) => (c, info),
            Ok(ResolveOk::NotFound { comps: _ }) => {
                return Err(FsError::NotFound);
            },
            Err(e) => {
                return Err(e);
            },
        };
        let ghost cv = c.deep_view();
        let ghost dn = choose|node: NodeV|
            resolves_to(tree0, acomps, ResolveSpec::Found { comps: cv, node }) && #[trigger] info_matches(
                info,
                node,
            );
        proof {
            assert(resolves_to(tree0, acomps, ResolveSpec::Found { comps: cv, node: dn }));
        }
        match info {
            NodeInfo::Dir { modified: _ } => {},
            _ => {
                return Err(FsError::NotADirectory);
            },
        }
        proof {
            let k = choose|k: nat|
                resolve_at(tree0, acomps, Seq::empty(), k) == (ResolveSpec::Found {
                    comps: cv,
                    node: dn,
                });
            crate::lookup::lemma_resolve_found_lookup(tree0, acomps, Seq::empty(), k);
            crate::edit::lemma_lookup_found_dir(tree0, cv, 0);
        }
        let entries = match dir_entries_at(&self.root, &c, 0, Ghost(nfiles)) {
            Some(es) => es,
            None => {
                proof {
                    assert(false);
                }
                return Err(FsError::NotFound);
            },
        };
        let ghost p = entries_view(entries@);
        proof {
            lemma_entries_view(entries@);
            assert(dn matches NodeV::Dir { entries: de, .. } && de == p);
        }
        let mut out: Vec<InMemoryDirEntry> = Vec::new();
        let mut i: usize = 0;
        while i < entries.len()
            invariant
                i <= entries@.len(),
                self.wf(),
                p == entries_view(entries@),
                p.len() == entries@.len(),
                crate::node::entries_wf(p, self.store().len() as nat),
                forall|j: int| 0 <= j < p.len() ==> p[j] == crate::node::node_view(entries@[j]),
                out@.len() == i,
                forall|j: int|
                    0 <= j < i ==> entry_matches(out@[j], #[trigger] p[j], self.store(), path@),
            decreases entries@.len() - i,
        {
            let e = &entries[i];
            let name = crate::node::node_name(e).clone();
            let epath = path_join(path, name.as_str());
            let entry = match e {
                Node::File { file_id, .. } => {
                    proof {
                        assert(nv_wf(p[i as int], self.store().len() as nat));
                    }
                    InMemoryDirEntry {
                        name,
                        path: epath,
                        file_type: FileType::File,
                        modified: self.files[*file_id].modified,
                    }
                },
                Node::Dir { modified, .. } => InMemoryDirEntry {
                    name,
                    path: epath,
                    file_type: FileType::Dir,
                    modified: *modified,
                },
                Node::Symlink { modified, .. } => InMemoryDirEntry {
                    name,
                    path: epath,
                    file_type: FileType::Symlink,
                    modified: *modified,
                },
            };
            out.push(entry);
            i = i + 1;
        }
        Ok(out)
    }

    /// Reads a directory.
    pub fn fs_read_dir(&self, path: &str) -> (r: Result<Vec<InMemoryDirEntry>, FsError>)
        requires
            self.wf(),
        ensures
            match r {
                Ok(v) => exists|c: Seq<Seq<char>>, dn: NodeV|
                    #[trigger] resolves_to(
                        self.tree(),
                        abs_comps_spec(self.cwd_view(), path@),
                        ResolveSpec::Found { comps: c, node: dn },
                    ) && (dn matches NodeV::Dir { entries, .. } && v@.len() == entries.len()
                        && forall|k: int|
                        0 <= k < entries.len() ==> entry_matches(
                            v@[k],
                            #[trigger] entries[k],
                            self.store(),
                            path@,
                        )),
                Err(FsError::NotADirectory) => exists|c: Seq<Seq<char>>, dn: NodeV|
                    #[trigger] resolves_to(
                        self.tree(),
                        abs_comps_spec(self.cwd_view(), path@),
                        ResolveSpec::Found { comps: c, node: dn },
                    ) && !(dn matches NodeV::Dir { .. }),
                Err(FsError::NotFound) => exists|c: Seq<Seq<char>>|
                    resolves_to(
                        self.tree(),
                        abs_comps_spec(self.cwd_view(), path@),
                        ResolveSpec::NotFound { comps: c },
                    ),
                Err(e) => resolve_errs(self.tree(), abs_comps_spec(self.cwd_view(), path@), e),
            },
    {
        self.base_fs_read_dir(path)
    }
}

/// Whether a seeding answer reports the right outcome and effect: the
/// parent chain is created and the file then written whole, each failure
/// being the creation step's or the write step's own.
pub open spec fn insert_matches(
    r: Result<(), FsError>,
    tree: Seq<NodeV>,
    store: Seq<FileDataV>,
    tree2: Seq<NodeV>,
    store2: Seq<FileDataV>,
    comps: Seq<Seq<char>>,
    bytes: Seq<u8>,
    tv: Option<u64>,
) -> bool {
    if comps.len() < 2 {
        r == Err::<(), FsError>(FsError::InvalidRootPath) && tree2 == tree && store2 == store
    } else {
        let parent = comps.drop_last();
        match r {
            Ok(()) => exists|t1: Seq<NodeV>, now1: u64, now2: u64|
                #![trigger create_all_matches(Ok(()), tree, t1, parent, now1), stamp(now2, tv)]
                {
                    &&& stamp(now1, tv)
                    &&& stamp(now2, tv)
                    &&& create_all_matches(Ok(()), tree, t1, parent, now1)
                    &&& write_matches(Ok(()), t1, store, tree2, store2, comps, bytes, now2)
                },
            Err(e) => (tree2 == tree && store2 == store && exists|now1: u64|
                #[trigger] stamp(now1, tv) && create_all_matches(Err(e), tree, tree, parent, now1))
                || (store2 == store && exists|t1: Seq<NodeV>, now1: u64, now2: u64|
                #![trigger create_all_matches(Ok(()), tree, t1, parent, now1), stamp(now2, tv)]
                {
                    &&& stamp(now1, tv)
                    &&& stamp(now2, tv)
                    &&& create_all_matches(Ok(()), tree, t1, parent, now1)
                    &&& tree2 == t1
                    &&& write_matches(Err(e), t1, store, t1, store, comps, bytes, now2)
                }),
        }
    }
}

/// The next state of the seeded linear congruential generator.
pub open spec fn lcg_next(state: u64) -> u64 {
    vstd::wrapping::u64_specs::wrapping_add(
        vstd::wrapping::u64_specs::wrapping_mul(state, 1664525),
        1013904223,
    )
}

/// The generator's state after `i` steps from a seed.
pub open spec fn lcg_state(seed: u64, i: nat) -> u64
    decreases i,
{
    if i == 0 {
        seed
    } else {
        lcg_next(lcg_state(seed, (i - 1) as nat))
    }
}

/// The byte the generator emits at step `i`: the top bits of the stepped
/// state.
pub open spec fn lcg_byte(seed: u64, i: nat) -> u8 {
    (lcg_state(seed, i + 1) >> 24) as u8
}

impl InMemorySys {
    /// Fills the buffer with random bytes: deterministically from the seeded
    /// generator when a seed is set — explicitly not cryptographically
    /// secure — and from the platform entropy source otherwise.
    pub fn sys_random(&self, buf: &mut Vec<u8>) -> (r: Result<(), FsError>)
        requires
            self.wf(),
        ensures
            final(buf)@.len() == old(buf)@.len(),
            self.seed_view() matches Some(seed) ==> r == Ok::<(), FsError>(()) && forall|i: int|
                0 <= i < final(buf)@.len() ==> final(buf)@[i] == lcg_byte(seed, i as nat),
            r matches Err(e) ==> e == FsError::RandomSourceFailure && self.seed_view() is None,
    {
        match self.random_seed {
            Some(seed) => {
                let mut state: u64 = seed;
                let mut i: usize = 0;
                let n = buf.len();
                while i < n
                    invariant
                        i <= n,
                        n == buf@.len(),
                        state == lcg_state(seed, i as nat),
                        forall|k: int| 0 <= k < i ==> buf@[k] == lcg_byte(seed, k as nat),
                        forall|k: int| i <= k < n ==> buf@[k] == old(buf)@[k],
                    decreases n - i,
                {
                    state = state.wrapping_mul(1664525).wrapping_add(1013904223);
                    let b = (state >> 24) as u8;
                    buf.set(i, b);
                    i = i + 1;
                }
                Ok(())
            },
            None => {
                match os_random_fill(buf) {
                    Ok(()) => Ok(()),
                    Err(_) => Err(FsError::RandomSourceFailure),
                }
            },
        }
    }

    /// One random byte.
    pub fn sys_random_u8(&self) -> (r: Result<u8, FsError>)
        requires
            self.wf(),
        ensures
            self.seed_view() matches Some(seed) ==> r == Ok::<u8, FsError>(lcg_byte(seed, 0)),
            r matches Err(e) ==> e == FsError::RandomSourceFailure && self.seed_view() is None,
    {
        let mut buf: Vec<u8> = Vec::new();
        buf.push(0);
        match self.sys_random(&mut buf) {
            Ok(()) => Ok(buf[0]),
            Err(e) => Err(e),
        }
    }

    /// One random 32-bit number, little-endian from four random bytes.
    pub fn sys_random_u32(&self) -> (r: Result<u32, FsError>)
        requires
            self.wf(),
        ensures
            self.seed_view() matches Some(seed) ==> r == Ok::<u32, FsError>(
                ((lcg_byte(seed, 0) as u32) + (lcg_byte(seed, 1) as u32) * 0x100 + (lcg_byte(
                    seed,
                    2,
                ) as u32) * 0x1_0000 + (lcg_byte(seed, 3) as u32) * 0x100_0000) as u32,
            ),
            r matches Err(e) ==> e == FsError::RandomSourceFailure && self.seed_view() is None,
    {
        let mut buf: Vec<u8> = Vec::new();
        buf.push(0);
        buf.push(0);
        buf.push(0);
        buf.push(0);
        match self.sys_random(&mut buf) {
            Ok(()) => {
                let b0 = buf[0] as u32;
                let b1 = buf[1] as u32;
                let b2 = buf[2] as u32;
                let b3 = buf[3] as u32;
                Ok(b0 + b1 * 256 + b2 * 65536 + b3 * 16777216)
            },
            Err(e) => Err(e),
        }
    }

    /// One random 64-bit number, little-endian from eight random bytes.
    pub fn sys_random_u64(&self) -> (r: Result<u64, FsError>)
        requires
            self.wf(),
        ensures
            self.seed_view() matches Some(seed) ==> r == Ok::<u64, FsError>(
                ((lcg_byte(seed, 0) as u64) + (lcg_byte(seed, 1) as u64) * 0x100 + (lcg_byte(
                    seed,
                    2,
                ) as u64) * 0x1_0000 + (lcg_byte(seed, 3) as u64) * 0x100_0000 + (lcg_byte(
                    seed,
                    4,
                ) as u64) * 0x1_0000_0000 + (lcg_byte(seed, 5) as u64) * 0x100_0000_0000 + (
                lcg_byte(seed, 6) as u64) * 0x1_0000_0000_0000 + (lcg_byte(seed, 7) as u64)
                    * 0x100_0000_0000_0000) as u64,
            ),
            r matches Err(e) ==> e == FsError::RandomSourceFailure && self.seed_view() is None,
    {
        let mut buf: Vec<u8> = Vec::new();
        let mut i: usize = 0;
        while i < 8
            invariant
                i <= 8,
                buf@.len() == i,
            decreases 8 - i,
        {
            buf.push(0);
            i = i + 1;
        }
        match self.sys_random(&mut buf) {
            Ok(()) => {
                let b0 = buf[0] as u64;
                let b1 = buf[1] as u64;
                let b2 = buf[2] as u64;
                let b3 = buf[3] as u64;
                let b4 = buf[4] as u64;
                let b5 = buf[5] as u64;
                let b6 = buf[6] as u64;
                let b7 = buf[7] as u64;
                Ok(
                    b0 + b1 * 0x100 + b2 * 0x1_0000 + b3 * 0x100_0000 + b4 * 0x1_0000_0000 + b5
                        * 0x100_0000_0000 + b6 * 0x1_0000_0000_0000 + b7 * 0x100_0000_0000_0000,
                )
            },
            Err(e) => Err(e),
        }
    }

    /// Creates the parent directories of a path and writes the file in one
    /// step: a convenience for seeding a test file system.
    pub fn fs_insert(&mut self, path: &str, data: &[u8]) -> (r: Result<(), FsError>)
        requires
            old(self).wf(),
        ensures
            final(self).wf(),
            final(self).same_config(old(self)),
            insert_matches(
                r,
                old(self).tree(),
                old(self).store(),
                final(self).tree(),
                final(self).store(),
                abs_comps_spec(old(self).cwd_view(), path@),
                data@,
                old(self).time_view(),
            ),
    {
        let now = self.sys_time_now();
        let ghost tree0 = self.tree();
        let ghost store0 = self.store();
        let ghost comps0 = abs_comps_spec(self.cwd_view(), path@);
        let comps = self.abs_comps(path);
        if comps.len() < 2 {
            return Err(FsError::InvalidRootPath);
        }
        let mut parent = comps;
        let _name = parent.pop();
        proof {
            crate::lookup::lemma_comps_view(&parent);
            assert(parent.deep_view() =~= comps0.drop_last());
            assert(stamp(now, old(self).time_view()));
        }
        match self.create_all_at(parent, now) {
            Ok(()) => {},
            Err(e) => {
                proof {
                    assert(create_all_matches(
                        Err::<(), FsError>(e),
                        tree0,
                        tree0,
                        comps0.drop_last(),
                        now,
                    ));
                }
                return Err(e);
            },
        }
        let ghost tree1 = self.tree();
        proof {
            assert(create_all_matches(Ok::<(), FsError>(()), tree0, tree1, comps0.drop_last(), now));
        }
        let r = self.fs_write(path, data);
        proof {
            let now2 = choose|n2: u64|
                #[trigger] stamp(n2, old(self).time_view()) && write_matches(
                    r,
                    tree1,
                    store0,
                    self.tree(),
                    self.store(),
                    comps0,
                    data@,
                    n2,
                );
            match r {
                Ok(()) => {
                    assert(insert_matches(
                        Ok::<(), FsError>(()),
                        tree0,
                        store0,
                        self.tree(),
                        self.store(),
                        comps0,
                        data@,
                        old(self).time_view(),
                    ));
                },
                Err(e) => {
                    assert(self.tree() == tree1);
                    assert(self.store() == store0);
                    assert(write_matches(
                        Err::<(), FsError>(e),
                        tree1,
                        store0,
                        tree1,
                        store0,
                        comps0,
                        data@,
                        now2,
                    ));
                    assert(insert_matches(
                        Err::<(), FsError>(e),
                        tree0,
                        store0,
                        self.tree(),
                        self.store(),
                        comps0,
                        data@,
                        old(self).time_view(),
                    ));
                },
            }
        }
        r
    }
}


/// A handle for a backend over the real platform. Its operations perform
/// actual I/O, so they live outside the verified core, in the surrounding
/// application layer.
#[derive(Debug, Default, Clone)]
pub struct RealSys;

} // verus!
