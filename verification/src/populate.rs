//! Filling `site-packages` from the runfiles tree: which directories can be linked
//! whole, the relative link from one path to another, and the lists of filesystem
//! actions for the `symlink` and `copy` strategies.
use vstd::prelude::*;
use crate::path_ops::{
    path_components, path_extension, path_file_name, path_has_root, path_join, path_parent,
    path_strip_prefix, spec_path_components, spec_path_extension, spec_path_file_name,
    spec_path_has_root, spec_path_join, spec_path_parent, spec_path_strip_prefix,
};
use crate::text::str_eq;

verus! {

/// The namespace packages whose directories are never linked whole.
pub open spec fn spec_is_namespace_package(name: Seq<char>) -> bool {
    name == "google"@ || name == "zope"@ || name == "azure"@ || name == "botocore"@
}

/// Whether `name` is a known namespace-package prefix (`google`, `zope`, `azure`,
/// `botocore`).
pub fn is_namespace_package(name: &str) -> (r: bool)
    ensures
        r == spec_is_namespace_package(name@),
{
    str_eq(name, "google") || str_eq(name, "zope") || str_eq(name, "azure") || str_eq(name, "botocore")
}

/// The file extensions of native extension modules.
pub open spec fn spec_is_native_extension(ext: Seq<char>) -> bool {
    ext == "so"@ || ext == "dylib"@ || ext == "pyd"@
}

/// One entry of a directory walk, in the walk's order (the directory itself first).
pub struct WalkEntry {
    /// The entry's path.
    pub path: String,
    /// Whether the entry is a directory (symbolic links are not followed).
    pub is_dir: bool,
    /// Whether the entry is a regular file (symbolic links are not followed).
    pub is_file: bool,
}

/// The entries of a directory walk up to its first error, and whether there was one.
pub struct WalkListing {
    /// The entries read before the walk failed or ended.
    pub entries: Vec<WalkEntry>,
    /// Whether the walk stopped at an error.
    pub failed: bool,
}

/// Whether a walked entry is a native extension module.
pub open spec fn spec_is_native_file(e: WalkEntry) -> bool {
    e.is_file && (spec_path_extension(e.path@) matches Some(ext) && spec_is_native_extension(ext))
}

/// A directory can be one link unless it is a namespace package, its walk failed, or it
/// holds a native extension module.
pub open spec fn spec_can_coalesce(path: Seq<char>, entries: Seq<WalkEntry>, failed: bool) -> bool {
    &&& !(spec_path_file_name(path) matches Some(n) && spec_is_namespace_package(n))
    &&& !failed
    &&& forall|i: int| 0 <= i < entries.len() ==> !spec_is_native_file(#[trigger] entries[i])
}

/// Whether the directory at `path`, whose walk is `walk`, can be represented by a
/// single link: not where it is a namespace package, where its walk failed, or where it
/// holds a `.so`, `.dylib` or `.pyd` file.
pub fn can_coalesce_directory(path: &str, walk: &WalkListing) -> (r: bool)
    ensures
        r == spec_can_coalesce(path@, walk.entries@, walk.failed),
{
    if let Some(name) = path_file_name(path) {
        if is_namespace_package(name.as_str()) {
            return false;
        }
    }
    if walk.failed {
        return false;
    }
    let mut i: usize = 0;
    while i < walk.entries.len()
        invariant
            i <= walk.entries.len(),
            forall|j: int| 0 <= j < i ==> !spec_is_native_file(#[trigger] walk.entries@[j]),
        decreases walk.entries.len() - i,
    {
        let e = &walk.entries[i];
        if e.is_file {
            if let Some(ext) = path_extension(e.path.as_str()) {
                if str_eq(ext.as_str(), "so") || str_eq(ext.as_str(), "dylib") || str_eq(
                    ext.as_str(),
                    "pyd",
                ) {
                    assert(spec_is_native_file(walk.entries@[i as int]));
                    return false;
                }
            }
        }
        i = i + 1;
    }
    true
}

/// The number of leading components that two component lists share.
pub open spec fn common_prefix_len(a: Seq<Seq<char>>, b: Seq<Seq<char>>) -> nat
    decreases a.len(),
{
    if a.len() == 0 || b.len() == 0 || a[0] != b[0] {
        0
    } else {
        1 + common_prefix_len(a.drop_first(), b.drop_first())
    }
}

/// `common_prefix_len` is the length of the longest shared prefix.
pub proof fn lemma_common_prefix_len(a: Seq<Seq<char>>, b: Seq<Seq<char>>)
    ensures
        common_prefix_len(a, b) <= a.len(),
        common_prefix_len(a, b) <= b.len(),
        forall|i: int| 0 <= i < common_prefix_len(a, b) ==> a[i] == b[i],
        common_prefix_len(a, b) < a.len() && common_prefix_len(a, b) < b.len() ==> a[common_prefix_len(
            a,
            b,
        ) as int] != b[common_prefix_len(a, b) as int],
    decreases a.len(),
{
    if a.len() > 0 && b.len() > 0 && a[0] == b[0] {
        lemma_common_prefix_len(a.drop_first(), b.drop_first());
        assert forall|i: int| 0 <= i < common_prefix_len(a, b) implies a[i] == b[i] by {
            if i > 0 {
                assert(a[i] == a.drop_first()[i - 1]);
                assert(b[i] == b.drop_first()[i - 1]);
            }
        }
    }
}

/// The components of a relative link from the directory with components `base` to the
/// path with components `path`: one `..` for each component of `base` past the shared
/// prefix, then the rest of `path`.
pub open spec fn relative_components(path: Seq<Seq<char>>, base: Seq<Seq<char>>) -> Seq<Seq<char>> {
    let k = common_prefix_len(path, base);
    Seq::new((base.len() - k) as nat, |i: int| ".."@) + path.skip(k as int)
}

/// A path built by joining components onto `start`, one after another.
pub open spec fn join_all(start: Seq<char>, comps: Seq<Seq<char>>) -> Seq<char>
    decreases comps.len(),
{
    if comps.len() == 0 {
        start
    } else {
        spec_path_join(join_all(start, comps.drop_last()), comps.last())
    }
}

/// The relative link from `base` to `path`: none where `base` has a root and the two
/// share no component (there is no way up from `base` to where `path` starts).
pub open spec fn spec_relative_to(path: Seq<char>, base: Seq<char>) -> Option<Seq<char>> {
    let pc = spec_path_components(path);
    let bc = spec_path_components(base);
    if common_prefix_len(pc, bc) == 0 && spec_path_has_root(base) {
        None
    } else {
        Some(join_all(Seq::empty(), relative_components(pc, bc)))
    }
}

/// Law: a relative path from `base` to `path` exists except where `base` has a root and
/// the two do not start with the same component; where it exists, following its
/// components from `base` leads to `path` (where neither has a `..` component).
pub proof fn law_relative_to_defined(path: Seq<char>, base: Seq<char>)
    ensures
        ({
            let pc = spec_path_components(path);
            let bc = spec_path_components(base);
            &&& spec_relative_to(path, base) is None <==> (spec_path_has_root(base) && !(pc.len() > 0 && bc.len() > 0
                && pc[0] == bc[0]))
            &&& spec_relative_to(path, base) is Some && no_parent_components(pc) && no_parent_components(bc)
                ==> follow_components(bc, relative_components(pc, bc)) == pc
        }),
{
    let pc = spec_path_components(path);
    let bc = spec_path_components(base);
    if pc.len() > 0 && bc.len() > 0 && pc[0] == bc[0] {
        assert(common_prefix_len(pc, bc) == 1 + common_prefix_len(pc.drop_first(), bc.drop_first()));
    }
    if no_parent_components(pc) && no_parent_components(bc) {
        law_relative_components_lead_to_path(pc, bc);
    }
}

/// The message for a path that cannot be reached from `base`.
pub open spec fn spec_relative_error(path: Seq<char>, base: Seq<char>) -> Seq<char> {
    "Trivial strip failed: "@ + path + " vs. "@ + base
}

/// The relative path by which `path` is reached from the directory `base`: up from
/// `base` to the components that the two share, then down to `path`; an error where
/// `base` has a root and the two share nothing.
pub fn relative_to(path: &str, base: &str) -> (r: Result<String, String>)
    ensures
        r matches Ok(l) ==> spec_relative_to(path@, base@) == Some(l@),
        r matches Err(e) ==> spec_relative_to(path@, base@) is None && e@ == spec_relative_error(
            path@,
            base@,
        ),
        r is Err <==> spec_relative_to(path@, base@) is None,
{
    let pc = path_components(path);
    let bc = path_components(base);
    let ghost pcs = spec_path_components(path@);
    let ghost bcs = spec_path_components(base@);
    proof {
        lemma_common_prefix_len(pcs, bcs);
    }
    let mut k: usize = 0;
    assert(pcs.skip(0) =~= pcs);
    assert(bcs.skip(0) =~= bcs);
    while k < pc.len() && k < bc.len() && pc[k].eq(&bc[k])
        invariant
            k <= pc.len(),
            k <= bc.len(),
            pcs == pc@.map_values(|s: String| s@),
            bcs == bc@.map_values(|s: String| s@),
            common_prefix_len(pcs.skip(k as int), bcs.skip(k as int)) + k == common_prefix_len(pcs, bcs),
        decreases pc.len() - k,
    {
        assert(pcs.skip(k as int)[0] == pc@[k as int]@);
        assert(bcs.skip(k as int)[0] == bc@[k as int]@);
        assert(pcs.skip(k as int).drop_first() =~= pcs.skip(k + 1));
        assert(bcs.skip(k as int).drop_first() =~= bcs.skip(k + 1));
        k = k + 1;
    }
    proof {
        if k < pc.len() && k < bc.len() {
            assert(pcs.skip(k as int)[0] == pc@[k as int]@);
            assert(bcs.skip(k as int)[0] == bc@[k as int]@);
        }
        assert(common_prefix_len(pcs.skip(k as int), bcs.skip(k as int)) == 0);
    }
    if k == 0 && path_has_root(base) {
        return Err(
            String::from_str("Trivial strip failed: ").concat(path).concat(" vs. ").concat(base),
        );
    }
    let ghost comps = relative_components(pcs, bcs);
    let ups = bc.len() - k;
    let mut out = String::new();
    let mut i: usize = 0;
    assert(comps.take(0) =~= Seq::<Seq<char>>::empty());
    while i < ups
        invariant
            i <= ups,
            ups == bcs.len() - k,
            k == common_prefix_len(pcs, bcs),
            comps == relative_components(pcs, bcs),
            out@ == join_all(Seq::empty(), comps.take(i as int)),
        decreases ups - i,
    {
        assert(comps.take(i + 1).drop_last() =~= comps.take(i as int));
        assert(comps[i as int] == ".."@);
        out = path_join(out.as_str(), "..");
        i = i + 1;
    }
    let mut j: usize = k;
    while j < pc.len()
        invariant
            k <= j <= pc.len(),
            ups == bcs.len() - k,
            k == common_prefix_len(pcs, bcs),
            pcs == pc@.map_values(|s: String| s@),
            comps == relative_components(pcs, bcs),
            comps.len() == ups + pcs.len() - k,
            out@ == join_all(Seq::empty(), comps.take(ups + j - k)),
        decreases pc.len() - j,
    {
        assert(comps.take(ups + j - k + 1).drop_last() =~= comps.take(ups + j - k));
        assert(comps[ups + j - k] == pcs[j as int]);
        out = path_join(out.as_str(), pc[j].as_str());
        j = j + 1;
    }
    assert(comps.take(comps.len() as int) =~= comps);
    Ok(out)
}

/// Following relative components from a directory: `..` goes up one level, any other
/// component goes down into it.
pub open spec fn follow_components(start: Seq<Seq<char>>, rel: Seq<Seq<char>>) -> Seq<Seq<char>>
    decreases rel.len(),
{
    if rel.len() == 0 {
        start
    } else {
        let here = follow_components(start, rel.drop_last());
        if rel.last() == ".."@ {
            here.drop_last()
        } else {
            here.push(rel.last())
        }
    }
}

proof fn lemma_follow_ups(start: Seq<Seq<char>>, n: nat)
    requires
        n <= start.len(),
    ensures
        follow_components(start, Seq::new(n, |i: int| ".."@)) == start.take(start.len() - n),
    decreases n,
{
    if n > 0 {
        let ups = Seq::new(n, |i: int| ".."@);
        assert(ups.drop_last() =~= Seq::new((n - 1) as nat, |i: int| ".."@));
        lemma_follow_ups(start, (n - 1) as nat);
        assert(start.take(start.len() - (n - 1)).drop_last() =~= start.take(start.len() - n));
    } else {
        assert(start.take(start.len() as int) =~= start);
    }
}

proof fn lemma_follow_append(start: Seq<Seq<char>>, a: Seq<Seq<char>>, b: Seq<Seq<char>>)
    requires
        forall|i: int| 0 <= i < b.len() ==> b[i] != ".."@,
    ensures
        follow_components(start, a + b) == follow_components(start, a) + b,
    decreases b.len(),
{
    if b.len() == 0 {
        assert(a + b =~= a);
        assert(follow_components(start, a) + b =~= follow_components(start, a));
    } else {
        assert((a + b).drop_last() =~= a + b.drop_last());
        lemma_follow_append(start, a, b.drop_last());
        assert((a + b).last() == b.last());
        assert(follow_components(start, a) + b =~= (follow_components(start, a) + b.drop_last()).push(
            b.last(),
        ));
    }
}

/// Law: following the relative components from `base` leads to `path`, where neither
/// holds a `..` component.
pub proof fn law_relative_components_lead_to_path(path: Seq<Seq<char>>, base: Seq<Seq<char>>)
    requires
        forall|i: int| 0 <= i < path.len() ==> path[i] != ".."@,
        forall|i: int| 0 <= i < base.len() ==> base[i] != ".."@,
    ensures
        follow_components(base, relative_components(path, base)) == path,
{
    lemma_common_prefix_len(path, base);
    let k = common_prefix_len(path, base);
    let ups = Seq::new((base.len() - k) as nat, |i: int| ".."@);
    lemma_follow_ups(base, (base.len() - k) as nat);
    lemma_follow_append(base, ups, path.skip(k as int));
    assert(base.take(k as int) =~= path.take(k as int));
    assert(path.take(k as int) + path.skip(k as int) =~= path);
}

/// A filesystem change that populating `site-packages` makes.
pub enum FsAction {
    /// Create the directory and any missing parents.
    CreateDirAll(String),
    /// Copy the file `from` to `to`.
    Copy { from: String, to: String },
    /// Create a symbolic link at `link` that points to `target`.
    Symlink { target: String, link: String },
    /// Create or replace a symbolic link at `link` that points to `target`.
    ReplaceSymlink { target: String, link: String },
}

/// The mathematical form of an `FsAction`.
pub enum FsActionSpec {
    CreateDirAll(Seq<char>),
    Copy(Seq<char>, Seq<char>),
    Symlink(Seq<char>, Seq<char>),
    ReplaceSymlink(Seq<char>, Seq<char>),
}

impl View for FsAction {
    type V = FsActionSpec;

    open spec fn view(&self) -> FsActionSpec {
        match self {
            FsAction::CreateDirAll(d) => FsActionSpec::CreateDirAll(d@),
            FsAction::Copy { from, to } => FsActionSpec::Copy(from@, to@),
            FsAction::Symlink { target, link } => FsActionSpec::Symlink(target@, link@),
            FsAction::ReplaceSymlink { target, link } => FsActionSpec::ReplaceSymlink(target@, link@),
        }
    }
}

/// The views of a list of actions.
pub open spec fn fs_views(a: Seq<FsAction>) -> Seq<FsActionSpec> {
    a.map_values(|x: FsAction| x@)
}

/// Why populating stops before its end.
pub enum PlanStop {
    /// The walk of the source-directory entry at this position failed.
    ChildWalkFailed(usize),
    /// The walk of the source tree that is copied failed.
    SourceWalkFailed,
    /// Reading the source directory failed after the entries given.
    ListingFailed,
    /// A link could not be made relative; the message says which.
    RelativePathFailed(String),
}

/// The mathematical form of a `PlanStop`.
pub enum PlanStopSpec {
    ChildWalkFailed(int),
    SourceWalkFailed,
    ListingFailed,
    RelativePathFailed(Seq<char>),
}

impl View for PlanStop {
    type V = PlanStopSpec;

    open spec fn view(&self) -> PlanStopSpec {
        match self {
            PlanStop::ChildWalkFailed(i) => PlanStopSpec::ChildWalkFailed(*i as int),
            PlanStop::SourceWalkFailed => PlanStopSpec::SourceWalkFailed,
            PlanStop::ListingFailed => PlanStopSpec::ListingFailed,
            PlanStop::RelativePathFailed(m) => PlanStopSpec::RelativePathFailed(m@),
        }
    }
}

/// The view of an optional stop.
pub open spec fn stop_view(s: Option<PlanStop>) -> Option<PlanStopSpec> {
    match s {
        Some(x) => Some(x@),
        None => None,
    }
}

/// The actions to take, in order, and why they stop short, if they do.
pub struct FsPlan {
    /// The actions, in the order in which they are taken.
    pub actions: Vec<FsAction>,
    /// What stops populating after the actions, if anything.
    pub stop: Option<PlanStop>,
}

/// What copying one walked entry takes: a directory is created; a file gets its parent
/// directory created and is copied. Entries outside the source are passed over.
pub open spec fn copy_entry_actions(site: Seq<char>, source: Seq<char>, e: WalkEntry) -> Seq<FsActionSpec> {
    match spec_path_strip_prefix(e.path@, source) {
        None => seq![],
        Some(rel) => {
            let t = spec_path_join(site, rel);
            if e.is_dir {
                seq![FsActionSpec::CreateDirAll(t)]
            } else {
                (match spec_path_parent(t) {
                    Some(p) => seq![FsActionSpec::CreateDirAll(p)],
                    None => seq![],
                }) + seq![FsActionSpec::Copy(e.path@, t)]
            }
        },
    }
}

/// What copying the walked entries takes, in the walk's order.
pub open spec fn copy_actions(site: Seq<char>, source: Seq<char>, es: Seq<WalkEntry>) -> Seq<FsActionSpec>
    decreases es.len(),
{
    if es.len() == 0 {
        seq![]
    } else {
        copy_actions(site, source, es.drop_last()) + copy_entry_actions(site, source, es.last())
    }
}

fn push_action(out: &mut Vec<FsAction>, a: FsAction)
    ensures
        fs_views(final(out)@) == fs_views(old(out)@).push(a@),
{
    let ghost before = fs_views(out@);
    out.push(a);
    assert(fs_views(out@) =~= before.push(a@));
}

/// The actions that copy the tree at `source` into `site_packages`, given whether
/// `source` exists and its walk: nothing where it does not exist; otherwise, for each
/// walked entry, its directory or its parent directory and a copy of the file; the walk's
/// failure, if any, stops populating after them.
pub fn plan_copies(site_packages: &str, source: &str, source_exists: bool, walk: &WalkListing) -> (r: FsPlan)
    ensures
        fs_views(r.actions@) == (if source_exists {
            copy_actions(site_packages@, source@, walk.entries@)
        } else {
            seq![]
        }),
        stop_view(r.stop) == (if source_exists && walk.failed {
            Some(PlanStopSpec::SourceWalkFailed)
        } else {
            None
        }),
{
    let mut out: Vec<FsAction> = Vec::new();
    if !source_exists {
        assert(fs_views(out@) =~= Seq::<FsActionSpec>::empty());
        return FsPlan { actions: out, stop: None };
    }
    let mut i: usize = 0;
    assert(fs_views(out@) =~= copy_actions(site_packages@, source@, walk.entries@.take(0)));
    while i < walk.entries.len()
        invariant
            i <= walk.entries.len(),
            fs_views(out@) == copy_actions(site_packages@, source@, walk.entries@.take(i as int)),
        decreases walk.entries.len() - i,
    {
        let e = &walk.entries[i];
        assert(walk.entries@.take(i + 1).drop_last() =~= walk.entries@.take(i as int));
        assert(walk.entries@.take(i + 1).last() == walk.entries@[i as int]);
        let ghost before = fs_views(out@);
        let ghost want = copy_entry_actions(site_packages@, source@, walk.entries@[i as int]);
        if let Some(rel) = path_strip_prefix(e.path.as_str(), source) {
            let t = path_join(site_packages, rel.as_str());
            if e.is_dir {
                push_action(&mut out, FsAction::CreateDirAll(t));
                assert(fs_views(out@) =~= before + want);
            } else {
                let parent = path_parent(t.as_str());
                match parent {
                    Some(p) => {
                        push_action(&mut out, FsAction::CreateDirAll(p));
                    },
                    None => {},
                }
                push_action(&mut out, FsAction::Copy { from: e.path.clone(), to: t });
                assert(fs_views(out@) =~= before + want);
            }
        } else {
            assert(fs_views(out@) =~= before + want);
        }
        i = i + 1;
    }
    assert(walk.entries@.take(walk.entries.len() as int) =~= walk.entries@);
    let stop = if walk.failed {
        Some(PlanStop::SourceWalkFailed)
    } else {
        None
    };
    FsPlan { actions: out, stop }
}

/// One entry of the source directory, with the walk of its tree.
pub struct SourceChild {
    /// The entry's path.
    pub path: String,
    /// Whether the entry is a directory (following symbolic links).
    pub is_dir: bool,
    /// The walk of the entry's tree (used where it is a directory).
    pub walk: WalkListing,
}

/// What linking one walked entry below a directory that is not linked whole takes, and
/// the message of the error that stops populating there, if any: a directory is created;
/// a file gets its parent directory created and a relative link to it there.
pub open spec fn link_entry_step(child_path: Seq<char>, child_target: Seq<char>, e: WalkEntry) -> (
    Seq<FsActionSpec>,
    Option<Seq<char>>,
) {
    match spec_path_strip_prefix(e.path@, child_path) {
        None => (seq![], None),
        Some(rel) => {
            let tp = spec_path_join(child_target, rel);
            if e.is_dir {
                (seq![FsActionSpec::CreateDirAll(tp)], None)
            } else {
                match spec_path_parent(tp) {
                    Some(p) => match spec_relative_to(e.path@, p) {
                        Some(l) => (
                            seq![FsActionSpec::CreateDirAll(p), FsActionSpec::ReplaceSymlink(l, tp)],
                            None,
                        ),
                        None => (seq![FsActionSpec::CreateDirAll(p)], Some(spec_relative_error(e.path@, p))),
                    },
                    None => (seq![], None),
                }
            }
        },
    }
}

/// Whether the link for a walked file has a parent directory to be relative to.
pub open spec fn entry_has_parent(child_path: Seq<char>, child_target: Seq<char>, e: WalkEntry) -> bool {
    match spec_path_strip_prefix(e.path@, child_path) {
        Some(rel) => !e.is_dir ==> spec_path_parent(spec_path_join(child_target, rel)) is Some,
        None => true,
    }
}

/// What linking the walked entries takes, in the walk's order, up to the first error.
pub open spec fn link_walk_steps(child_path: Seq<char>, child_target: Seq<char>, es: Seq<WalkEntry>) -> (
    Seq<FsActionSpec>,
    Option<Seq<char>>,
)
    decreases es.len(),
{
    if es.len() == 0 {
        (seq![], None)
    } else {
        let prev = link_walk_steps(child_path, child_target, es.drop_last());
        if prev.1 is Some {
            prev
        } else {
            let step = link_entry_step(child_path, child_target, es.last());
            (prev.0 + step.0, step.1)
        }
    }
}

/// What one entry of the source directory takes: nothing where it has no file name; a
/// relative link to it from `site-packages` where it is a file or a directory that can
/// be linked whole; otherwise its tree, directory by directory and file by file.
pub open spec fn child_step(site: Seq<char>, c: SourceChild, index: int) -> (
    Seq<FsActionSpec>,
    Option<PlanStopSpec>,
) {
    match spec_path_file_name(c.path@) {
        None => (seq![], None),
        Some(name) => {
            let ct = spec_path_join(site, name);
            if c.is_dir && !spec_can_coalesce(c.path@, c.walk.entries@, c.walk.failed) {
                let w = link_walk_steps(c.path@, ct, c.walk.entries@);
                match w.1 {
                    Some(m) => (w.0, Some(PlanStopSpec::RelativePathFailed(m))),
                    None => if c.walk.failed {
                        (w.0, Some(PlanStopSpec::ChildWalkFailed(index)))
                    } else {
                        (w.0, None)
                    },
                }
            } else {
                match spec_relative_to(c.path@, site) {
                    Some(l) => (seq![FsActionSpec::ReplaceSymlink(l, ct)], None),
                    None => (
                        seq![],
                        Some(PlanStopSpec::RelativePathFailed(spec_relative_error(c.path@, site))),
                    ),
                }
            }
        },
    }
}

/// What the entries of the source directory take, in order, up to the first stop.
pub open spec fn children_steps(site: Seq<char>, cs: Seq<SourceChild>) -> (
    Seq<FsActionSpec>,
    Option<PlanStopSpec>,
)
    decreases cs.len(),
{
    if cs.len() == 0 {
        (seq![], None)
    } else {
        let prev = children_steps(site, cs.drop_last());
        if prev.1 is Some {
            prev
        } else {
            let step = child_step(site, cs.last(), cs.len() - 1);
            (prev.0 + step.0, step.1)
        }
    }
}

/// Where the link for a missing source points: the relative path from `site-packages` to
/// the source where there is one, and the source's path as given where there is none.
pub open spec fn missing_source_target(source: Seq<char>, site: Seq<char>) -> Seq<char> {
    match spec_relative_to(source, site) {
        Some(l) => l,
        None => source,
    }
}

/// The plan that links the source tree into `site-packages`: where the source does not
/// exist, one link named after it (where it has a file name) to where it would be, as
/// `missing_source_target` says; otherwise the
/// steps of its entries, and a failed listing of the directory stops populating after
/// them.
pub open spec fn spec_symlink_plan(
    site: Seq<char>,
    source: Seq<char>,
    source_exists: bool,
    cs: Seq<SourceChild>,
    listing_failed: bool,
) -> (Seq<FsActionSpec>, Option<PlanStopSpec>) {
    if !source_exists {
        match spec_path_file_name(source) {
            Some(n) => (seq![FsActionSpec::Symlink(missing_source_target(source, site), spec_path_join(site, n))], None),
            None => (seq![], None),
        }
    } else {
        let steps = children_steps(site, cs);
        if steps.1 is None && listing_failed {
            (steps.0, Some(PlanStopSpec::ListingFailed))
        } else {
            steps
        }
    }
}

/// Every file below every directory entry has a parent directory for its link.
pub open spec fn symlink_plan_defined(site: Seq<char>, cs: Seq<SourceChild>) -> bool {
    forall|i: int, j: int|
        0 <= i < cs.len() && 0 <= j < cs[i].walk.entries@.len() ==> (
        spec_path_file_name(cs[i].path@) matches Some(n) ==> entry_has_parent(
            cs[i].path@,
            spec_path_join(site, n),
            #[trigger] cs[i].walk.entries@[j],
        ))
}

fn link_entry(
    child_path: &str,
    child_target: &str,
    e: &WalkEntry,
    out: &mut Vec<FsAction>,
) -> (r: Option<String>)
    requires
        entry_has_parent(child_path@, child_target@, *e),
    ensures
        fs_views(final(out)@) == fs_views(old(out)@) + link_entry_step(child_path@, child_target@, *e).0,
        opt_view_str(r) == link_entry_step(child_path@, child_target@, *e).1,
{
    let ghost before = fs_views(out@);
    let ghost want = link_entry_step(child_path@, child_target@, *e);
    match path_strip_prefix(e.path.as_str(), child_path) {
        None => {
            assert(fs_views(out@) =~= before + want.0);
            None
        },
        Some(rel) => {
            let tp = path_join(child_target, rel.as_str());
            if e.is_dir {
                push_action(out, FsAction::CreateDirAll(tp));
                assert(fs_views(out@) =~= before + want.0);
                None
            } else {
                match path_parent(tp.as_str()) {
                    Some(p) => {
                        let link = relative_to(e.path.as_str(), p.as_str());
                        push_action(out, FsAction::CreateDirAll(p));
                        match link {
                            Ok(l) => {
                                push_action(out, FsAction::ReplaceSymlink { target: l, link: tp });
                                assert(fs_views(out@) =~= before + want.0);
                                None
                            },
                            Err(m) => {
                                assert(fs_views(out@) =~= before + want.0);
                                Some(m)
                            },
                        }
                    },
                    None => {
                        assert(false);
                        None
                    },
                }
            }
        },
    }
}

/// The view of an optional string.
pub open spec fn opt_view_str(o: Option<String>) -> Option<Seq<char>> {
    match o {
        Some(s) => Some(s@),
        None => None,
    }
}

fn link_walk(child_path: &str, child_target: &str, entries: &Vec<WalkEntry>, out: &mut Vec<FsAction>) -> (r:
    Option<String>)
    requires
        forall|j: int|
            0 <= j < entries@.len() ==> entry_has_parent(child_path@, child_target@, #[trigger] entries@[j]),
    ensures
        fs_views(final(out)@) == fs_views(old(out)@) + link_walk_steps(child_path@, child_target@, entries@).0,
        opt_view_str(r) == link_walk_steps(child_path@, child_target@, entries@).1,
{
    let ghost start = fs_views(out@);
    let mut i: usize = 0;
    assert(entries@.take(0) =~= Seq::<WalkEntry>::empty());
    assert(fs_views(out@) =~= start + link_walk_steps(child_path@, child_target@, entries@.take(0)).0);
    while i < entries.len()
        invariant
            i <= entries.len(),
            start == fs_views(old(out)@),
            forall|j: int|
                0 <= j < entries@.len() ==> entry_has_parent(child_path@, child_target@, #[trigger] entries@[j]),
            fs_views(out@) == start + link_walk_steps(child_path@, child_target@, entries@.take(i as int)).0,
            link_walk_steps(child_path@, child_target@, entries@.take(i as int)).1 is None,
        decreases entries.len() - i,
    {
        let ghost prefix = entries@.take(i as int);
        assert(entries@.take(i + 1).drop_last() =~= prefix);
        assert(entries@.take(i + 1).last() == entries@[i as int]);
        let stop = link_entry(child_path, child_target, &entries[i], out);
        assert(link_walk_steps(child_path@, child_target@, entries@.take(i + 1)) == (
            link_walk_steps(child_path@, child_target@, prefix).0 + link_entry_step(
                child_path@,
                child_target@,
                entries@[i as int],
            ).0,
            link_entry_step(child_path@, child_target@, entries@[i as int]).1,
        ));
        assert(start + link_walk_steps(child_path@, child_target@, entries@.take(i + 1)).0 =~= fs_views(out@));
        if stop.is_some() {
            proof {
                lemma_walk_steps_stopped(child_path@, child_target@, entries@, i as int + 1);
            }
            return stop;
        }
        i = i + 1;
    }
    assert(entries@.take(entries.len() as int) =~= entries@);
    None
}

proof fn lemma_walk_steps_stopped(child_path: Seq<char>, child_target: Seq<char>, es: Seq<WalkEntry>, n: int)
    requires
        0 <= n <= es.len(),
        link_walk_steps(child_path, child_target, es.take(n)).1 is Some,
    ensures
        link_walk_steps(child_path, child_target, es) == link_walk_steps(child_path, child_target, es.take(n)),
    decreases es.len() - n,
{
    if n < es.len() {
        assert(es.take(n + 1).drop_last() =~= es.take(n));
        lemma_walk_steps_stopped(child_path, child_target, es, n + 1);
    } else {
        assert(es.take(n) =~= es);
    }
}

proof fn lemma_children_steps_stopped(site: Seq<char>, cs: Seq<SourceChild>, n: int)
    requires
        0 <= n <= cs.len(),
        children_steps(site, cs.take(n)).1 is Some,
    ensures
        children_steps(site, cs) == children_steps(site, cs.take(n)),
    decreases cs.len() - n,
{
    if n < cs.len() {
        assert(cs.take(n + 1).drop_last() =~= cs.take(n));
        lemma_children_steps_stopped(site, cs, n + 1);
    } else {
        assert(cs.take(n) =~= cs);
    }
}

fn link_child(site_packages: &str, c: &SourceChild, index: usize, out: &mut Vec<FsAction>) -> (r: Option<
    PlanStop,
>)
    requires
        forall|j: int|
            0 <= j < c.walk.entries@.len() ==> (spec_path_file_name(c.path@) matches Some(n)
                ==> entry_has_parent(c.path@, spec_path_join(site_packages@, n), #[trigger] c.walk.entries@[j])),
    ensures
        fs_views(final(out)@) == fs_views(old(out)@) + child_step(site_packages@, *c, index as int).0,
        stop_view(r) == child_step(site_packages@, *c, index as int).1,
{
    let ghost before = fs_views(out@);
    let ghost want = child_step(site_packages@, *c, index as int);
    let name = match path_file_name(c.path.as_str()) {
        Some(n) => n,
        None => {
            assert(fs_views(out@) =~= before + want.0);
            return None;
        },
    };
    let ct = path_join(site_packages, name.as_str());
    if c.is_dir && !can_coalesce_directory(c.path.as_str(), &c.walk) {
        let stop = link_walk(c.path.as_str(), ct.as_str(), &c.walk.entries, out);
        match stop {
            Some(m) => Some(PlanStop::RelativePathFailed(m)),
            None => if c.walk.failed {
                Some(PlanStop::ChildWalkFailed(index))
            } else {
                None
            },
        }
    } else {
        match relative_to(c.path.as_str(), site_packages) {
            Ok(l) => {
                push_action(out, FsAction::ReplaceSymlink { target: l, link: ct });
                assert(fs_views(out@) =~= before + want.0);
                None
            },
            Err(m) => {
                assert(fs_views(out@) =~= before + want.0);
                Some(PlanStop::RelativePathFailed(m))
            },
        }
    }
}

/// The actions that link the tree at `source` into `site_packages`, given whether
/// `source` exists, its entries (each with the walk of its tree) and whether reading
/// the directory failed after them: as `spec_symlink_plan` says.
pub fn plan_symlinks(
    site_packages: &str,
    source: &str,
    source_exists: bool,
    children: &Vec<SourceChild>,
    listing_failed: bool,
) -> (r: FsPlan)
    requires
        symlink_plan_defined(site_packages@, children@),
    ensures
        fs_views(r.actions@) == spec_symlink_plan(
            site_packages@,
            source@,
            source_exists,
            children@,
            listing_failed,
        ).0,
        stop_view(r.stop) == spec_symlink_plan(
            site_packages@,
            source@,
            source_exists,
            children@,
            listing_failed,
        ).1,
{
    let mut out: Vec<FsAction> = Vec::new();
    if !source_exists {
        match path_file_name(source) {
            Some(n) => {
                let link = path_join(site_packages, n.as_str());
                let target = match relative_to(source, site_packages) {
                    Ok(rel) => rel,
                    Err(_) => String::from_str(source),
                };
                push_action(&mut out, FsAction::Symlink { target, link });
            },
            None => {},
        }
        assert(fs_views(out@) =~= spec_symlink_plan(
            site_packages@,
            source@,
            source_exists,
            children@,
            listing_failed,
        ).0);
        return FsPlan { actions: out, stop: None };
    }
    let mut i: usize = 0;
    assert(children@.take(0) =~= Seq::<SourceChild>::empty());
    assert(fs_views(out@) =~= children_steps(site_packages@, children@.take(0)).0);
    while i < children.len()
        invariant
            i <= children.len(),
            source_exists,
            symlink_plan_defined(site_packages@, children@),
            fs_views(out@) == children_steps(site_packages@, children@.take(i as int)).0,
            children_steps(site_packages@, children@.take(i as int)).1 is None,
        decreases children.len() - i,
    {
        let ghost prefix = children@.take(i as int);
        assert(children@.take(i + 1).drop_last() =~= prefix);
        assert(children@.take(i + 1).last() == children@[i as int]);
        assert(children@.take(i + 1).len() - 1 == i);
        let stop = link_child(site_packages, &children[i], i, &mut out);
        assert(children_steps(site_packages@, children@.take(i + 1)) == (
            children_steps(site_packages@, prefix).0 + child_step(site_packages@, children@[i as int], i as int).0,
            child_step(site_packages@, children@[i as int], i as int).1,
        ));
        assert(fs_views(out@) =~= children_steps(site_packages@, children@.take(i + 1)).0);
        if stop.is_some() {
            proof {
                lemma_children_steps_stopped(site_packages@, children@, i as int + 1);
            }
            return FsPlan { actions: out, stop };
        }
        i = i + 1;
    }
    assert(children@.take(children.len() as int) =~= children@);
    let stop = if listing_failed {
        Some(PlanStop::ListingFailed)
    } else {
        None
    };
    FsPlan { actions: out, stop }
}

/// Whether every file below every directory entry has a parent directory for its link,
/// as `plan_symlinks` needs.
pub fn symlink_plan_is_defined(site_packages: &str, children: &Vec<SourceChild>) -> (r: bool)
    ensures
        r == symlink_plan_defined(site_packages@, children@),
{
    let mut i: usize = 0;
    while i < children.len()
        invariant
            i <= children.len(),
            forall|a: int, j: int|
                0 <= a < i && 0 <= j < children@[a].walk.entries@.len() ==> (
                spec_path_file_name(children@[a].path@) matches Some(n) ==> entry_has_parent(
                    children@[a].path@,
                    spec_path_join(site_packages@, n),
                    #[trigger] children@[a].walk.entries@[j],
                )),
        decreases children.len() - i,
    {
        let c = &children[i];
        if let Some(n) = path_file_name(c.path.as_str()) {
            let ct = path_join(site_packages, n.as_str());
            let mut j: usize = 0;
            while j < c.walk.entries.len()
                invariant
                    j <= c.walk.entries.len(),
                    i < children.len(),
                    *c == children@[i as int],
                    spec_path_file_name(c.path@) == Some(n@),
                    ct@ == spec_path_join(site_packages@, n@),
                    forall|a: int, k: int|
                        0 <= a < i && 0 <= k < children@[a].walk.entries@.len() ==> (
                        spec_path_file_name(children@[a].path@) matches Some(nn) ==> entry_has_parent(
                            children@[a].path@,
                            spec_path_join(site_packages@, nn),
                            #[trigger] children@[a].walk.entries@[k],
                        )),
                    forall|k: int|
                        0 <= k < j ==> entry_has_parent(c.path@, ct@, #[trigger] c.walk.entries@[k]),
                decreases c.walk.entries.len() - j,
            {
                let e = &c.walk.entries[j];
                if !e.is_dir {
                    if let Some(rel) = path_strip_prefix(e.path.as_str(), c.path.as_str()) {
                        let tp = path_join(ct.as_str(), rel.as_str());
                        if path_parent(tp.as_str()).is_none() {
                            assert(!entry_has_parent(c.path@, ct@, c.walk.entries@[j as int]));
                            assert(!entry_has_parent(
                                children@[i as int].path@,
                                spec_path_join(site_packages@, n@),
                                children@[i as int].walk.entries@[j as int],
                            ));
                            return false;
                        }
                    }
                }
                j = j + 1;
            }
        }
        i = i + 1;
    }
    true
}

/// The plan of `plan_symlinks` where it is defined (every file below a directory entry
/// has a parent directory for its link); none otherwise.
pub fn checked_plan_symlinks(
    site_packages: &str,
    source: &str,
    source_exists: bool,
    children: &Vec<SourceChild>,
    listing_failed: bool,
) -> (r: Option<FsPlan>)
    ensures
        r is None <==> !symlink_plan_defined(site_packages@, children@),
        r matches Some(p) ==> fs_views(p.actions@) == spec_symlink_plan(
            site_packages@,
            source@,
            source_exists,
            children@,
            listing_failed,
        ).0 && stop_view(p.stop) == spec_symlink_plan(
            site_packages@,
            source@,
            source_exists,
            children@,
            listing_failed,
        ).1,
{
    if symlink_plan_is_defined(site_packages, children) {
        Some(plan_symlinks(site_packages, source, source_exists, children, listing_failed))
    } else {
        None
    }
}

/// Law: a namespace package, a directory whose walk failed, and a directory holding a
/// native extension module are never linked whole.
pub proof fn law_never_coalesced(path: Seq<char>, entries: Seq<WalkEntry>, failed: bool, i: int)
    requires
        (spec_path_file_name(path) matches Some(n) && spec_is_namespace_package(n)) || failed || (0 <= i
            < entries.len() && spec_is_native_file(entries[i])),
    ensures
        !spec_can_coalesce(path, entries, failed),
{
}

/// Law: a directory is linked whole exactly when its name is none of `google`, `zope`,
/// `azure` and `botocore`, its walk did not fail, and no walked regular file has the
/// extension `so`, `dylib` or `pyd`.
pub proof fn law_coalesce_exactly(path: Seq<char>, entries: Seq<WalkEntry>, failed: bool)
    ensures
        spec_can_coalesce(path, entries, failed) <==> {
            &&& !(spec_path_file_name(path) matches Some(n) && (n == "google"@ || n == "zope"@ || n == "azure"@
                || n == "botocore"@))
            &&& !failed
            &&& forall|i: int|
                0 <= i < entries.len() ==> !(entries[i].is_file && (spec_path_extension(entries[i].path@) matches Some(
                    x,
                ) && (x == "so"@ || x == "dylib"@ || x == "pyd"@)))
        },
{
    if spec_can_coalesce(path, entries, failed) {
        assert forall|i: int| 0 <= i < entries.len() implies !(entries[i].is_file && (spec_path_extension(
            entries[i].path@,
        ) matches Some(x) && (x == "so"@ || x == "dylib"@ || x == "pyd"@))) by {
            assert(!spec_is_native_file(entries[i]));
        }
    }
}

/// Law: every copy lands in `site-packages` at the path that the file has below the
/// source.
pub proof fn law_copies_mirror_source(site: Seq<char>, source: Seq<char>, es: Seq<WalkEntry>, idx: int)
    requires
        0 <= idx < copy_actions(site, source, es).len(),
        copy_actions(site, source, es)[idx] is Copy,
    ensures
        ({
            let a = copy_actions(site, source, es)[idx];
            exists|rel: Seq<char>|
                spec_path_strip_prefix(a->Copy_0, source) == Some(rel) && a->Copy_1 == spec_path_join(site, rel)
        }),
    decreases es.len(),
{
    let prev = copy_actions(site, source, es.drop_last());
    let last = copy_entry_actions(site, source, es.last());
    assert(copy_actions(site, source, es) == prev + last);
    if idx < prev.len() {
        assert(copy_actions(site, source, es)[idx] == prev[idx]);
        law_copies_mirror_source(site, source, es.drop_last(), idx);
    } else {
        let a = copy_actions(site, source, es)[idx];
        assert(a == last[idx - prev.len()]);
        let e = es.last();
        let rel = spec_path_strip_prefix(e.path@, source)->0;
        assert(spec_path_strip_prefix(a->Copy_0, source) == Some(rel));
    }
}

/// A link that an action makes lies in `site-packages`: directly in it, or below an
/// entry of it.
pub open spec fn link_in_site(site: Seq<char>, a: FsActionSpec) -> bool {
    match a {
        FsActionSpec::Symlink(_, l) => link_path_in_site(site, l),
        FsActionSpec::ReplaceSymlink(_, l) => link_path_in_site(site, l),
        _ => true,
    }
}

/// `l` is `site/<name>` or `site/<name>/<rel>`.
pub open spec fn link_path_in_site(site: Seq<char>, l: Seq<char>) -> bool {
    (exists|n: Seq<char>| l == #[trigger] spec_path_join(site, n)) || (exists|n: Seq<char>, r: Seq<char>|
        l == #[trigger] spec_path_join(spec_path_join(site, n), r))
}

proof fn lemma_walk_links_in_site(site: Seq<char>, n: Seq<char>, child_path: Seq<char>, es: Seq<WalkEntry>)
    ensures
        forall|i: int|
            0 <= i < link_walk_steps(child_path, spec_path_join(site, n), es).0.len() ==> link_in_site(
                site,
                #[trigger] link_walk_steps(child_path, spec_path_join(site, n), es).0[i],
            ),
    decreases es.len(),
{
    let ct = spec_path_join(site, n);
    if es.len() > 0 {
        lemma_walk_links_in_site(site, n, child_path, es.drop_last());
        let prev = link_walk_steps(child_path, ct, es.drop_last());
        if prev.1 is None {
            let step = link_entry_step(child_path, ct, es.last());
            let all = link_walk_steps(child_path, ct, es).0;
            assert(all == prev.0 + step.0);
            assert forall|i: int| 0 <= i < all.len() implies link_in_site(site, #[trigger] all[i]) by {
                if i < prev.0.len() {
                    assert(all[i] == prev.0[i]);
                } else {
                    assert(all[i] == step.0[i - prev.0.len()]);
                    if let Some(rel) = spec_path_strip_prefix(es.last().path@, child_path) {
                        let tp = spec_path_join(ct, rel);
                        assert(tp == spec_path_join(spec_path_join(site, n), rel));
                        assert(link_path_in_site(site, tp));
                    }
                }
            }
        }
    }
}

proof fn lemma_child_links_in_site(site: Seq<char>, c: SourceChild, index: int)
    ensures
        forall|i: int|
            0 <= i < child_step(site, c, index).0.len() ==> link_in_site(
                site,
                #[trigger] child_step(site, c, index).0[i],
            ),
{
    if let Some(name) = spec_path_file_name(c.path@) {
        lemma_walk_links_in_site(site, name, c.path@, c.walk.entries@);
        let ct = spec_path_join(site, name);
        assert(link_path_in_site(site, ct));
    }
}

proof fn lemma_children_links_in_site(site: Seq<char>, cs: Seq<SourceChild>)
    ensures
        forall|i: int|
            0 <= i < children_steps(site, cs).0.len() ==> link_in_site(site, #[trigger] children_steps(site, cs).0[i]),
    decreases cs.len(),
{
    if cs.len() > 0 {
        lemma_children_links_in_site(site, cs.drop_last());
        let prev = children_steps(site, cs.drop_last());
        if prev.1 is None {
            let step = child_step(site, cs.last(), cs.len() - 1);
            lemma_child_links_in_site(site, cs.last(), cs.len() - 1);
            let all = children_steps(site, cs).0;
            assert(all == prev.0 + step.0);
            assert forall|i: int| 0 <= i < all.len() implies link_in_site(site, #[trigger] all[i]) by {
                if i < prev.0.len() {
                    assert(all[i] == prev.0[i]);
                } else {
                    assert(all[i] == step.0[i - prev.0.len()]);
                }
            }
        }
    }
}

/// Law: every link that linking a source tree makes lies in `site-packages`: directly
/// in it, or below one of its entries.
pub proof fn law_links_stay_in_site_packages(
    site: Seq<char>,
    source: Seq<char>,
    source_exists: bool,
    cs: Seq<SourceChild>,
    listing_failed: bool,
)
    ensures
        forall|i: int|
            0 <= i < spec_symlink_plan(site, source, source_exists, cs, listing_failed).0.len() ==> link_in_site(
                site,
                #[trigger] spec_symlink_plan(site, source, source_exists, cs, listing_failed).0[i],
            ),
{
    if !source_exists {
        if let Some(n) = spec_path_file_name(source) {
            assert(link_path_in_site(site, spec_path_join(site, n)));
        }
    } else {
        lemma_children_links_in_site(site, cs);
    }
}

proof fn lemma_contains_concat(x: Seq<FsActionSpec>, y: Seq<FsActionSpec>)
    ensures
        forall|a: FsActionSpec| x.contains(a) ==> (x + y).contains(a),
        forall|a: FsActionSpec| y.contains(a) ==> (x + y).contains(a),
{
    assert forall|a: FsActionSpec| x.contains(a) implies (x + y).contains(a) by {
        let k = choose|k: int| 0 <= k < x.len() && x[k] == a;
        assert((x + y)[k] == a);
    }
    assert forall|a: FsActionSpec| y.contains(a) implies (x + y).contains(a) by {
        let k = choose|k: int| 0 <= k < y.len() && y[k] == a;
        assert((x + y)[x.len() + k] == a);
    }
}

/// Law: copying is complete. For every walked entry below the source, the copy plan
/// creates its directory in `site-packages` where it is a directory, and otherwise (a
/// file, or a link to one, whatever `is_file` says) copies it there, at `site-packages`
/// joined with its path relative to the source, after creating the directory that holds
/// the copy.
pub proof fn law_copy_plan_complete(site: Seq<char>, source: Seq<char>, es: Seq<WalkEntry>, k: int, rel: Seq<char>)
    requires
        0 <= k < es.len(),
        spec_path_strip_prefix(es[k].path@, source) == Some(rel),
    ensures
        es[k].is_dir ==> copy_actions(site, source, es).contains(FsActionSpec::CreateDirAll(spec_path_join(site, rel))),
        !es[k].is_dir ==> copy_actions(site, source, es).contains(
            FsActionSpec::Copy(es[k].path@, spec_path_join(site, rel)),
        ),
        !es[k].is_dir ==> (spec_path_parent(spec_path_join(site, rel)) matches Some(p)
            ==> copy_actions(site, source, es).contains(FsActionSpec::CreateDirAll(p))),
    decreases es.len(),
{
    let prev = copy_actions(site, source, es.drop_last());
    let last = copy_entry_actions(site, source, es.last());
    assert(copy_actions(site, source, es) == prev + last);
    lemma_contains_concat(prev, last);
    if k < es.len() - 1 {
        assert(es.drop_last()[k] == es[k]);
        law_copy_plan_complete(site, source, es.drop_last(), k, rel);
        let t = spec_path_join(site, rel);
        if es[k].is_dir {
            assert((prev + last).contains(FsActionSpec::CreateDirAll(t)));
        } else {
            assert((prev + last).contains(FsActionSpec::Copy(es[k].path@, t)));
            if let Some(p) = spec_path_parent(t) {
                assert((prev + last).contains(FsActionSpec::CreateDirAll(p)));
            }
        }
    } else {
        assert(es.last() == es[k]);
        let t = spec_path_join(site, rel);
        if es[k].is_dir {
            assert(last[0] == FsActionSpec::CreateDirAll(t));
            assert(last.contains(FsActionSpec::CreateDirAll(t)));
            assert((prev + last).contains(FsActionSpec::CreateDirAll(t)));
        } else {
            assert(last[last.len() - 1] == FsActionSpec::Copy(es[k].path@, t));
            assert(last.contains(FsActionSpec::Copy(es[k].path@, t)));
            assert((prev + last).contains(FsActionSpec::Copy(es[k].path@, t)));
            if let Some(p) = spec_path_parent(t) {
                assert(last[0] == FsActionSpec::CreateDirAll(p));
                assert(last.contains(FsActionSpec::CreateDirAll(p)));
                assert((prev + last).contains(FsActionSpec::CreateDirAll(p)));
            }
        }
    }
}

proof fn lemma_walk_complete(cp: Seq<char>, ct: Seq<char>, es: Seq<WalkEntry>, j: int)
    requires
        link_walk_steps(cp, ct, es).1 is None,
        0 <= j < es.len(),
    ensures
        link_entry_step(cp, ct, es[j]).1 is None,
        forall|a: FsActionSpec|
            link_entry_step(cp, ct, es[j]).0.contains(a) ==> link_walk_steps(cp, ct, es).0.contains(a),
    decreases es.len(),
{
    let prev = link_walk_steps(cp, ct, es.drop_last());
    assert(prev.1 is None);
    let step = link_entry_step(cp, ct, es.last());
    assert(link_walk_steps(cp, ct, es).0 == prev.0 + step.0);
    lemma_contains_concat(prev.0, step.0);
    if j < es.len() - 1 {
        assert(es.drop_last()[j] == es[j]);
        lemma_walk_complete(cp, ct, es.drop_last(), j);
        assert forall|a: FsActionSpec| link_entry_step(cp, ct, es[j]).0.contains(a) implies link_walk_steps(
            cp,
            ct,
            es,
        ).0.contains(a) by {
            assert(prev.0.contains(a));
            assert((prev.0 + step.0).contains(a));
        }
    } else {
        assert(es.last() == es[j]);
        assert forall|a: FsActionSpec| link_entry_step(cp, ct, es[j]).0.contains(a) implies link_walk_steps(
            cp,
            ct,
            es,
        ).0.contains(a) by {
            assert((prev.0 + step.0).contains(a));
        }
    }
}

proof fn lemma_children_complete(site: Seq<char>, cs: Seq<SourceChild>, i: int)
    requires
        children_steps(site, cs).1 is None,
        0 <= i < cs.len(),
    ensures
        child_step(site, cs[i], i).1 is None,
        forall|a: FsActionSpec| child_step(site, cs[i], i).0.contains(a) ==> children_steps(site, cs).0.contains(a),
    decreases cs.len(),
{
    let prev = children_steps(site, cs.drop_last());
    assert(prev.1 is None);
    let step = child_step(site, cs.last(), cs.len() - 1);
    assert(children_steps(site, cs).0 == prev.0 + step.0);
    lemma_contains_concat(prev.0, step.0);
    if i < cs.len() - 1 {
        assert(cs.drop_last()[i] == cs[i]);
        lemma_children_complete(site, cs.drop_last(), i);
        assert forall|a: FsActionSpec| child_step(site, cs[i], i).0.contains(a) implies children_steps(
            site,
            cs,
        ).0.contains(a) by {
            assert(prev.0.contains(a));
            assert((prev.0 + step.0).contains(a));
        }
    } else {
        assert(cs.last() == cs[i]);
        assert forall|a: FsActionSpec| child_step(site, cs[i], i).0.contains(a) implies children_steps(
            site,
            cs,
        ).0.contains(a) by {
            assert((prev.0 + step.0).contains(a));
        }
    }
}

/// Law: linking is complete for the entries linked whole. Where populating an existing
/// source runs to its end, every entry of the source directory that is a file, or a
/// directory that can be linked whole, gets a link at `site-packages/<name>` holding
/// the relative path from `site-packages` to it.
pub proof fn law_symlink_plan_links_whole_entries(
    site: Seq<char>,
    source: Seq<char>,
    cs: Seq<SourceChild>,
    listing_failed: bool,
    i: int,
    n: Seq<char>,
)
    requires
        spec_symlink_plan(site, source, true, cs, listing_failed).1 is None,
        0 <= i < cs.len(),
        spec_path_file_name(cs[i].path@) == Some(n),
        !(cs[i].is_dir && !spec_can_coalesce(cs[i].path@, cs[i].walk.entries@, cs[i].walk.failed)),
    ensures
        spec_relative_to(cs[i].path@, site) is Some,
        spec_symlink_plan(site, source, true, cs, listing_failed).0.contains(
            FsActionSpec::ReplaceSymlink(spec_relative_to(cs[i].path@, site)->0, spec_path_join(site, n)),
        ),
{
    lemma_children_complete(site, cs, i);
    let step = child_step(site, cs[i], i);
    assert(step.0[0] == FsActionSpec::ReplaceSymlink(spec_relative_to(cs[i].path@, site)->0, spec_path_join(site, n)));
}

/// Law: linking is complete below the entries not linked whole. Where populating an
/// existing source runs to its end, every walked entry that is not a directory (a file,
/// or a link to one, whatever `is_file` says) below a directory entry that is not linked
/// whole gets a link at `site-packages/<name>/<rel>`, holding the relative path to it
/// from that link's directory, and that directory is created.
pub proof fn law_symlink_plan_links_every_file(
    site: Seq<char>,
    source: Seq<char>,
    cs: Seq<SourceChild>,
    listing_failed: bool,
    i: int,
    j: int,
    n: Seq<char>,
    rel: Seq<char>,
)
    requires
        spec_symlink_plan(site, source, true, cs, listing_failed).1 is None,
        0 <= i < cs.len(),
        0 <= j < cs[i].walk.entries@.len(),
        spec_path_file_name(cs[i].path@) == Some(n),
        cs[i].is_dir && !spec_can_coalesce(cs[i].path@, cs[i].walk.entries@, cs[i].walk.failed),
        !cs[i].walk.entries@[j].is_dir,
        spec_path_strip_prefix(cs[i].walk.entries@[j].path@, cs[i].path@) == Some(rel),
        spec_path_parent(spec_path_join(spec_path_join(site, n), rel)) is Some,
    ensures
        ({
            let e = cs[i].walk.entries@[j];
            let tp = spec_path_join(spec_path_join(site, n), rel);
            let p = spec_path_parent(tp)->0;
            &&& spec_relative_to(e.path@, p) is Some
            &&& spec_symlink_plan(site, source, true, cs, listing_failed).0.contains(
                FsActionSpec::ReplaceSymlink(spec_relative_to(e.path@, p)->0, tp),
            )
            &&& spec_symlink_plan(site, source, true, cs, listing_failed).0.contains(FsActionSpec::CreateDirAll(p))
        }),
{
    let c = cs[i];
    let ct = spec_path_join(site, n);
    lemma_children_complete(site, cs, i);
    let w = link_walk_steps(c.path@, ct, c.walk.entries@);
    assert(child_step(site, c, i).0 == w.0);
    assert(w.1 is None);
    lemma_walk_complete(c.path@, ct, c.walk.entries@, j);
    let e = c.walk.entries@[j];
    let tp = spec_path_join(ct, rel);
    let p = spec_path_parent(tp)->0;
    let step = link_entry_step(c.path@, ct, e);
    assert(step.0[1] == FsActionSpec::ReplaceSymlink(spec_relative_to(e.path@, p)->0, tp));
    assert(step.0[0] == FsActionSpec::CreateDirAll(p));
}

/// The path that action `a` writes lies in `site-packages` (`site/<name>` or
/// `site/<name>/<rel>`), or is the parent directory of such a path.
pub open spec fn writes_in_site(site: Seq<char>, a: FsActionSpec) -> bool {
    ||| link_path_in_site(site, action_key(a))
    ||| exists|q: Seq<char>| link_path_in_site(site, q) && #[trigger] spec_path_parent(q) == Some(action_key(a))
}

proof fn lemma_copy_writes_in_site(site: Seq<char>, source: Seq<char>, es: Seq<WalkEntry>)
    ensures
        forall|i: int|
            0 <= i < copy_actions(site, source, es).len() ==> writes_in_site(
                site,
                #[trigger] copy_actions(site, source, es)[i],
            ),
    decreases es.len(),
{
    if es.len() > 0 {
        lemma_copy_writes_in_site(site, source, es.drop_last());
        let prev = copy_actions(site, source, es.drop_last());
        let last = copy_entry_actions(site, source, es.last());
        let all = copy_actions(site, source, es);
        assert(all == prev + last);
        assert forall|i: int| 0 <= i < all.len() implies writes_in_site(site, #[trigger] all[i]) by {
            if i < prev.len() {
                assert(all[i] == prev[i]);
            } else {
                assert(all[i] == last[i - prev.len()]);
                if let Some(rel) = spec_path_strip_prefix(es.last().path@, source) {
                    let t = spec_path_join(site, rel);
                    assert(link_path_in_site(site, t));
                    if let Some(p) = spec_path_parent(t) {
                        assert(spec_path_parent(t) == Some(p));
                    }
                }
            }
        }
    }
}

proof fn lemma_walk_writes_in_site(site: Seq<char>, n: Seq<char>, child_path: Seq<char>, es: Seq<WalkEntry>)
    ensures
        forall|i: int|
            0 <= i < link_walk_steps(child_path, spec_path_join(site, n), es).0.len() ==> writes_in_site(
                site,
                #[trigger] link_walk_steps(child_path, spec_path_join(site, n), es).0[i],
            ),
    decreases es.len(),
{
    let ct = spec_path_join(site, n);
    if es.len() > 0 {
        lemma_walk_writes_in_site(site, n, child_path, es.drop_last());
        let prev = link_walk_steps(child_path, ct, es.drop_last());
        if prev.1 is None {
            let step = link_entry_step(child_path, ct, es.last());
            let all = link_walk_steps(child_path, ct, es).0;
            assert(all == prev.0 + step.0);
            assert forall|i: int| 0 <= i < all.len() implies writes_in_site(site, #[trigger] all[i]) by {
                if i < prev.0.len() {
                    assert(all[i] == prev.0[i]);
                } else {
                    assert(all[i] == step.0[i - prev.0.len()]);
                    if let Some(rel) = spec_path_strip_prefix(es.last().path@, child_path) {
                        let tp = spec_path_join(ct, rel);
                        assert(tp == spec_path_join(spec_path_join(site, n), rel));
                        assert(link_path_in_site(site, tp));
                        if let Some(p) = spec_path_parent(tp) {
                            assert(spec_path_parent(tp) == Some(p));
                        }
                    }
                }
            }
        }
    }
}

proof fn lemma_children_writes_in_site(site: Seq<char>, cs: Seq<SourceChild>)
    ensures
        forall|i: int|
            0 <= i < children_steps(site, cs).0.len() ==> writes_in_site(site, #[trigger] children_steps(site, cs).0[i]),
    decreases cs.len(),
{
    if cs.len() > 0 {
        lemma_children_writes_in_site(site, cs.drop_last());
        let prev = children_steps(site, cs.drop_last());
        if prev.1 is None {
            let c = cs.last();
            let step = child_step(site, c, cs.len() - 1);
            if let Some(name) = spec_path_file_name(c.path@) {
                lemma_walk_writes_in_site(site, name, c.path@, c.walk.entries@);
                assert(link_path_in_site(site, spec_path_join(site, name)));
            }
            let all = children_steps(site, cs).0;
            assert(all == prev.0 + step.0);
            assert forall|i: int| 0 <= i < all.len() implies writes_in_site(site, #[trigger] all[i]) by {
                if i < prev.0.len() {
                    assert(all[i] == prev.0[i]);
                } else {
                    assert(all[i] == step.0[i - prev.0.len()]);
                }
            }
        }
    }
}

/// Law: populating `site-packages` writes nowhere else. Every directory that either plan
/// creates, every file that it copies and every link that it makes lies in
/// `site-packages` (`site/<name>` or `site/<name>/<rel>`) or is the parent directory of
/// such a path.
pub proof fn law_plans_write_only_in_site_packages(
    site: Seq<char>,
    source: Seq<char>,
    source_exists: bool,
    cs: Seq<SourceChild>,
    listing_failed: bool,
    es: Seq<WalkEntry>,
)
    ensures
        forall|i: int|
            0 <= i < spec_symlink_plan(site, source, source_exists, cs, listing_failed).0.len() ==> writes_in_site(
                site,
                #[trigger] spec_symlink_plan(site, source, source_exists, cs, listing_failed).0[i],
            ),
        forall|i: int|
            0 <= i < copy_actions(site, source, es).len() ==> writes_in_site(
                site,
                #[trigger] copy_actions(site, source, es)[i],
            ),
{
    lemma_copy_writes_in_site(site, source, es);
    if !source_exists {
        if let Some(n) = spec_path_file_name(source) {
            assert(link_path_in_site(site, spec_path_join(site, n)));
        }
    } else {
        lemma_children_writes_in_site(site, cs);
    }
}

/// No component is `..`.
pub open spec fn no_parent_components(c: Seq<Seq<char>>) -> bool {
    forall|i: int| 0 <= i < c.len() ==> c[i] != ".."@
}

/// `src` is the path of an entry of the source directory or of a file in the walk of one.
pub open spec fn listed_source(cs: Seq<SourceChild>, src: Seq<char>) -> bool {
    ||| exists|i: int| 0 <= i < cs.len() && #[trigger] cs[i].path@ == src
    ||| exists|i: int, j: int|
        0 <= i < cs.len() && 0 <= j < cs[i].walk.entries@.len() && #[trigger] cs[i].walk.entries@[j].path@ == src
}

/// A replacing link `a` reaches the listed source `src` from the directory `dir` that
/// holds it (`site-packages` itself, or the link's parent): its target is the relative
/// path from `dir` to `src`, and following the target's components from `dir` leads to
/// `src` where neither path has a `..` component.
pub open spec fn link_reaches(site: Seq<char>, cs: Seq<SourceChild>, src: Seq<char>, dir: Seq<char>, a: FsActionSpec) -> bool {
    match a {
        FsActionSpec::ReplaceSymlink(t, l) => {
            &&& spec_relative_to(src, dir) == Some(t)
            &&& (dir == site || spec_path_parent(l) == Some(dir))
            &&& listed_source(cs, src)
            &&& (no_parent_components(spec_path_components(src)) && no_parent_components(
                spec_path_components(dir),
            ) ==> follow_components(
                spec_path_components(dir),
                relative_components(spec_path_components(src), spec_path_components(dir)),
            ) == spec_path_components(src))
        },
        _ => false,
    }
}

/// A replacing link reaches some listed source; other actions are not links to sources.
pub open spec fn leads_to_source(site: Seq<char>, cs: Seq<SourceChild>, a: FsActionSpec) -> bool {
    a is ReplaceSymlink ==> exists|src: Seq<char>, dir: Seq<char>| #[trigger] link_reaches(site, cs, src, dir, a)
}

proof fn lemma_follow_to(src: Seq<char>, dir: Seq<char>)
    ensures
        no_parent_components(spec_path_components(src)) && no_parent_components(spec_path_components(dir))
            ==> follow_components(
            spec_path_components(dir),
            relative_components(spec_path_components(src), spec_path_components(dir)),
        ) == spec_path_components(src),
{
    if no_parent_components(spec_path_components(src)) && no_parent_components(spec_path_components(dir)) {
        law_relative_components_lead_to_path(spec_path_components(src), spec_path_components(dir));
    }
}

proof fn lemma_walk_reaches(site: Seq<char>, cs: Seq<SourceChild>, idx: int, n: Seq<char>, m: int)
    requires
        0 <= idx < cs.len(),
        0 <= m <= cs[idx].walk.entries@.len(),
    ensures
        ({
            let st = link_walk_steps(cs[idx].path@, spec_path_join(site, n), cs[idx].walk.entries@.take(m)).0;
            forall|i: int| 0 <= i < st.len() ==> leads_to_source(site, cs, #[trigger] st[i])
        }),
    decreases m,
{
    let c = cs[idx];
    let ct = spec_path_join(site, n);
    let es = c.walk.entries@;
    if m > 0 {
        lemma_walk_reaches(site, cs, idx, n, m - 1);
        assert(es.take(m).drop_last() =~= es.take(m - 1));
        assert(es.take(m).last() == es[m - 1]);
        let prev = link_walk_steps(c.path@, ct, es.take(m - 1));
        if prev.1 is None {
            let e = es[m - 1];
            let step = link_entry_step(c.path@, ct, e);
            let all = link_walk_steps(c.path@, ct, es.take(m)).0;
            assert(all == prev.0 + step.0);
            assert forall|i: int| 0 <= i < all.len() implies leads_to_source(site, cs, #[trigger] all[i]) by {
                if i < prev.0.len() {
                    assert(all[i] == prev.0[i]);
                } else {
                    assert(all[i] == step.0[i - prev.0.len()]);
                    if let Some(rel) = spec_path_strip_prefix(e.path@, c.path@) {
                        let tp = spec_path_join(ct, rel);
                        if !e.is_dir {
                            if let Some(p) = spec_path_parent(tp) {
                                if all[i] is ReplaceSymlink {
                                    lemma_follow_to(e.path@, p);
                                    assert(cs[idx].walk.entries@[m - 1].path@ == e.path@);
                                    assert(listed_source(cs, e.path@));
                                    assert(link_reaches(site, cs, e.path@, p, all[i]));
                                }
                            }
                        }
                    }
                }
            }
        }
    }
}

proof fn lemma_children_reach(site: Seq<char>, cs: Seq<SourceChild>, m: int)
    requires
        0 <= m <= cs.len(),
    ensures
        ({
            let st = children_steps(site, cs.take(m)).0;
            forall|i: int| 0 <= i < st.len() ==> leads_to_source(site, cs, #[trigger] st[i])
        }),
    decreases m,
{
    if m > 0 {
        lemma_children_reach(site, cs, m - 1);
        assert(cs.take(m).drop_last() =~= cs.take(m - 1));
        assert(cs.take(m).last() == cs[m - 1]);
        let prev = children_steps(site, cs.take(m - 1));
        if prev.1 is None {
            let c = cs[m - 1];
            let step = child_step(site, c, m - 1);
            let all = children_steps(site, cs.take(m)).0;
            assert(all == prev.0 + step.0);
            if let Some(name) = spec_path_file_name(c.path@) {
                lemma_walk_reaches(site, cs, m - 1, name, c.walk.entries@.len() as int);
                assert(c.walk.entries@.take(c.walk.entries@.len() as int) =~= c.walk.entries@);
            }
            assert forall|i: int| 0 <= i < all.len() implies leads_to_source(site, cs, #[trigger] all[i]) by {
                if i < prev.0.len() {
                    assert(all[i] == prev.0[i]);
                } else {
                    assert(all[i] == step.0[i - prev.0.len()]);
                    if let Some(name) = spec_path_file_name(c.path@) {
                        if !(c.is_dir && !spec_can_coalesce(c.path@, c.walk.entries@, c.walk.failed)) {
                            lemma_follow_to(c.path@, site);
                            assert(cs[m - 1].path@ == c.path@);
                            assert(listed_source(cs, c.path@));
                            assert(link_reaches(site, cs, c.path@, site, all[i]));
                        }
                    }
                }
            }
        }
    }
}

/// Law: every link that linking a source tree makes points at its source. Where the
/// source exists, each replacing link holds the relative path from the directory that
/// holds it to an entry of the source directory or a file below one, and following that
/// path's components from there leads to the entry (where neither path has a `..`
/// component). Where the source is missing, the link holds the relative path from
/// `site-packages` to the source where there is one, and the source's path as given
/// where there is none.
pub proof fn law_links_lead_to_sources(
    site: Seq<char>,
    source: Seq<char>,
    source_exists: bool,
    cs: Seq<SourceChild>,
    listing_failed: bool,
)
    ensures
        ({
            let acts = spec_symlink_plan(site, source, source_exists, cs, listing_failed).0;
            &&& source_exists ==> forall|i: int| 0 <= i < acts.len() ==> leads_to_source(site, cs, #[trigger] acts[i])
            &&& !source_exists ==> forall|i: int|
                0 <= i < acts.len() ==> (#[trigger] acts[i] matches FsActionSpec::Symlink(t, _) && (
                spec_relative_to(source, site) == Some(t) || (spec_relative_to(source, site) is None && t == source)))
        }),
{
    if source_exists {
        lemma_children_reach(site, cs, cs.len() as int);
        assert(cs.take(cs.len() as int) =~= cs);
    }
}

/// What a path in the filesystem model holds: a directory, a copy of a source file,
/// or a symbolic link to a target.
pub enum FsNode {
    Dir,
    File(Seq<char>),
    Link(Seq<char>),
}

/// The path that an action writes.
pub open spec fn action_key(a: FsActionSpec) -> Seq<char> {
    match a {
        FsActionSpec::CreateDirAll(d) => d,
        FsActionSpec::Copy(_, t) => t,
        FsActionSpec::Symlink(_, l) => l,
        FsActionSpec::ReplaceSymlink(_, l) => l,
    }
}

/// What an action leaves at the path that it writes.
pub open spec fn action_node(a: FsActionSpec) -> FsNode {
    match a {
        FsActionSpec::CreateDirAll(_) => FsNode::Dir,
        FsActionSpec::Copy(f, _) => FsNode::File(f),
        FsActionSpec::Symlink(t, _) => FsNode::Link(t),
        FsActionSpec::ReplaceSymlink(t, _) => FsNode::Link(t),
    }
}

/// Carrying out one action on a filesystem (paths to what they hold), or nothing where it
/// fails: creating a directory fails where something else is there; copying fails onto
/// a directory; a plain link fails where anything is there; a replacing link replaces
/// whatever is there.
pub open spec fn apply_action(st: Map<Seq<char>, FsNode>, a: FsActionSpec) -> Option<Map<Seq<char>, FsNode>> {
    match a {
        FsActionSpec::CreateDirAll(d) => if st.contains_key(d) && st[d] != FsNode::Dir {
            None
        } else {
            Some(st.insert(d, FsNode::Dir))
        },
        FsActionSpec::Copy(f, t) => if st.contains_key(t) && st[t] == FsNode::Dir {
            None
        } else {
            Some(st.insert(t, FsNode::File(f)))
        },
        FsActionSpec::Symlink(t, l) => if st.contains_key(l) {
            None
        } else {
            Some(st.insert(l, FsNode::Link(t)))
        },
        FsActionSpec::ReplaceSymlink(t, l) => Some(st.insert(l, FsNode::Link(t))),
    }
}

/// Carrying out actions in order, stopping with nothing at the first that fails.
pub open spec fn apply_actions(st: Map<Seq<char>, FsNode>, acts: Seq<FsActionSpec>) -> Option<
    Map<Seq<char>, FsNode>,
>
    decreases acts.len(),
{
    if acts.len() == 0 {
        Some(st)
    } else {
        match apply_actions(st, acts.drop_last()) {
            Some(m) => apply_action(m, acts.last()),
            None => None,
        }
    }
}

/// No path that an action creates as a directory is one that a replacing link writes.
pub open spec fn no_dir_replaced_by_link(acts: Seq<FsActionSpec>) -> bool {
    forall|i: int, j: int|
        0 <= i < acts.len() && 0 <= j < acts.len() && #[trigger] acts[i] is CreateDirAll
            && #[trigger] acts[j] is ReplaceSymlink ==> action_key(acts[i]) != action_key(acts[j])
}

/// No action is a plain link, which fails where its path is taken.
pub open spec fn no_plain_symlink(acts: Seq<FsActionSpec>) -> bool {
    forall|i: int| 0 <= i < acts.len() ==> !(#[trigger] acts[i] is Symlink)
}

/// The filesystem with each action's path set to what it writes, later actions winning.
pub open spec fn overlay(st: Map<Seq<char>, FsNode>, acts: Seq<FsActionSpec>) -> Map<Seq<char>, FsNode>
    decreases acts.len(),
{
    if acts.len() == 0 {
        st
    } else {
        overlay(st, acts.drop_last()).insert(action_key(acts.last()), action_node(acts.last()))
    }
}

/// What the last action that writes `k` leaves there, if any writes it.
pub open spec fn last_write(acts: Seq<FsActionSpec>, k: Seq<char>) -> Option<FsNode>
    decreases acts.len(),
{
    if acts.len() == 0 {
        None
    } else if action_key(acts.last()) == k {
        Some(action_node(acts.last()))
    } else {
        last_write(acts.drop_last(), k)
    }
}

proof fn lemma_last_write(acts: Seq<FsActionSpec>, k: Seq<char>)
    ensures
        last_write(acts, k) matches Some(n) ==> exists|j: int|
            0 <= j < acts.len() && action_key(acts[j]) == k && n == action_node(#[trigger] acts[j]),
        (exists|j: int| 0 <= j < acts.len() && action_key(#[trigger] acts[j]) == k) ==> last_write(acts, k) is Some,
    decreases acts.len(),
{
    if acts.len() > 0 {
        let p = acts.drop_last();
        lemma_last_write(p, k);
        if action_key(acts.last()) != k {
            if let Some(n) = last_write(p, k) {
                let j = choose|j: int| 0 <= j < p.len() && action_key(p[j]) == k && n == action_node(#[trigger] p[j]);
                assert(acts[j] == p[j]);
            }
            if exists|j: int| 0 <= j < acts.len() && action_key(#[trigger] acts[j]) == k {
                let j = choose|j: int| 0 <= j < acts.len() && action_key(#[trigger] acts[j]) == k;
                assert(j < p.len());
                assert(p[j] == acts[j]);
            }
        } else {
            assert(acts[acts.len() - 1] == acts.last());
        }
    }
}

proof fn lemma_overlay_at(st: Map<Seq<char>, FsNode>, acts: Seq<FsActionSpec>, k: Seq<char>)
    ensures
        overlay(st, acts).contains_key(k) == (last_write(acts, k) is Some || st.contains_key(k)),
        last_write(acts, k) matches Some(n) ==> overlay(st, acts)[k] == n,
        last_write(acts, k) is None && st.contains_key(k) ==> overlay(st, acts)[k] == st[k],
    decreases acts.len(),
{
    if acts.len() > 0 {
        lemma_overlay_at(st, acts.drop_last(), k);
    }
}

proof fn lemma_apply_is_overlay(st: Map<Seq<char>, FsNode>, acts: Seq<FsActionSpec>)
    ensures
        apply_actions(st, acts) matches Some(m) ==> m == overlay(st, acts),
    decreases acts.len(),
{
    if acts.len() > 0 {
        lemma_apply_is_overlay(st, acts.drop_last());
    }
}

proof fn lemma_overlay_twice(st: Map<Seq<char>, FsNode>, acts: Seq<FsActionSpec>)
    ensures
        overlay(overlay(st, acts), acts) == overlay(st, acts),
{
    let once = overlay(st, acts);
    let twice = overlay(once, acts);
    assert forall|k: Seq<char>| twice.contains_key(k) <==> once.contains_key(k) by {
        lemma_overlay_at(st, acts, k);
        lemma_overlay_at(once, acts, k);
    }
    assert forall|k: Seq<char>| twice.contains_key(k) implies twice[k] == once[k] by {
        lemma_overlay_at(st, acts, k);
        lemma_overlay_at(once, acts, k);
    }
    assert(twice =~= once);
}

proof fn lemma_last_write_last(acts: Seq<FsActionSpec>, k: Seq<char>)
    ensures
        last_write(acts, k) matches Some(w) ==> exists|j: int|
            0 <= j < acts.len() && action_key(acts[j]) == k && w == action_node(#[trigger] acts[j]) && forall|m: int|
                j < m < acts.len() ==> action_key(#[trigger] acts[m]) != k,
    decreases acts.len(),
{
    if acts.len() > 0 {
        let p = acts.drop_last();
        lemma_last_write_last(p, k);
        let n = acts.len() - 1;
        if action_key(acts.last()) == k {
            assert(acts[n] == acts.last());
        } else if let Some(w) = last_write(p, k) {
            let j = choose|j: int|
                0 <= j < p.len() && action_key(p[j]) == k && w == action_node(#[trigger] p[j]) && forall|m: int|
                    j < m < p.len() ==> action_key(#[trigger] p[m]) != k;
            assert(acts[j] == p[j]);
            assert forall|m: int| j < m < acts.len() implies action_key(#[trigger] acts[m]) != k by {
                if m < n {
                    assert(acts[m] == p[m]);
                }
            }
        }
    }
}

proof fn lemma_prefix_succeeds(st: Map<Seq<char>, FsNode>, acts: Seq<FsActionSpec>, n: int)
    requires
        apply_actions(st, acts) is Some,
        0 <= n < acts.len(),
    ensures
        apply_action(overlay(st, acts.take(n)), acts[n]) is Some,
    decreases acts.len(),
{
    let p = acts.drop_last();
    if n == acts.len() - 1 {
        lemma_apply_is_overlay(st, p);
        assert(acts.take(n) =~= p);
    } else {
        assert(p.take(n) =~= acts.take(n));
        assert(p[n] == acts[n]);
        lemma_prefix_succeeds(st, p, n);
    }
}

/// The node that `take(n)` of `acts` leaves at `k`, when it writes `k`, is that of the
/// last action before `n` that writes `k`.
proof fn lemma_written_before(acts: Seq<FsActionSpec>, n: int, k: Seq<char>, i: int)
    requires
        0 <= i < n <= acts.len(),
        action_key(acts[i]) == k,
    ensures
        last_write(acts.take(n), k) matches Some(w) && exists|j: int|
            i <= j < n && action_key(acts[j]) == k && w == action_node(#[trigger] acts[j]),
{
    let t = acts.take(n);
    assert(t[i] == acts[i]);
    lemma_last_write(t, k);
    lemma_last_write_last(t, k);
    let w = last_write(t, k)->0;
    let j = choose|j: int|
        0 <= j < t.len() && action_key(t[j]) == k && w == action_node(#[trigger] t[j]) && forall|m: int|
            j < m < t.len() ==> action_key(#[trigger] t[m]) != k;
    assert(t[j] == acts[j]);
    if j < i {
        assert(action_key(t[i]) == k);
    }
}

/// After a directory is created at `d` in a run that succeeds, every later action that
/// writes `d` creates a directory there too.
proof fn lemma_dir_stays(st: Map<Seq<char>, FsNode>, acts: Seq<FsActionSpec>, n: int, j: int)
    requires
        apply_actions(st, acts) is Some,
        no_plain_symlink(acts),
        no_dir_replaced_by_link(acts),
        0 <= n < j < acts.len(),
        acts[n] is CreateDirAll,
        action_key(acts[j]) == action_key(acts[n]),
    ensures
        acts[j] is CreateDirAll,
    decreases j - n,
{
    let d = action_key(acts[n]);
    lemma_written_before(acts, j, d, n);
    let w = last_write(acts.take(j), d)->0;
    let i = choose|i: int| n <= i < j && action_key(acts[i]) == d && w == action_node(#[trigger] acts[i]);
    if i > n {
        lemma_dir_stays(st, acts, n, i);
    }
    assert(w == FsNode::Dir);
    lemma_overlay_at(st, acts.take(j), d);
    lemma_prefix_succeeds(st, acts, j);
    assert(!(acts[j] is Symlink));
    if acts[j] is ReplaceSymlink {
        assert(action_key(acts[n]) != action_key(acts[j]));
    }
}

/// After a file is copied to `t` in a run that succeeds, no later action creates a
/// directory there.
proof fn lemma_file_never_dir(st: Map<Seq<char>, FsNode>, acts: Seq<FsActionSpec>, n: int, j: int)
    requires
        apply_actions(st, acts) is Some,
        0 <= n < j < acts.len(),
        acts[n] is Copy,
        action_key(acts[j]) == action_key(acts[n]),
    ensures
        !(acts[j] is CreateDirAll),
    decreases j - n,
{
    let t = action_key(acts[n]);
    lemma_written_before(acts, j, t, n);
    let w = last_write(acts.take(j), t)->0;
    let i = choose|i: int| n <= i < j && action_key(acts[i]) == t && w == action_node(#[trigger] acts[i]);
    if i > n {
        lemma_file_never_dir(st, acts, n, i);
    }
    assert(w != FsNode::Dir);
    lemma_overlay_at(st, acts.take(j), t);
    lemma_prefix_succeeds(st, acts, j);
}

proof fn lemma_second_run(st: Map<Seq<char>, FsNode>, acts: Seq<FsActionSpec>, n: int)
    requires
        apply_actions(st, acts) is Some,
        no_plain_symlink(acts),
        no_dir_replaced_by_link(acts),
        0 <= n <= acts.len(),
    ensures
        apply_actions(overlay(st, acts), acts.take(n)) == Some(overlay(overlay(st, acts), acts.take(n))),
    decreases n,
{
    let once = overlay(st, acts);
    if n == 0 {
        assert(acts.take(0) =~= Seq::<FsActionSpec>::empty());
    } else {
        let m = n - 1;
        lemma_second_run(st, acts, m);
        assert(acts.take(n).drop_last() =~= acts.take(m));
        assert(acts.take(n).last() == acts[m]);
        let s = overlay(once, acts.take(m));
        let a = acts[m];
        let k = action_key(a);
        lemma_overlay_at(once, acts.take(m), k);
        lemma_overlay_at(st, acts.take(m), k);
        lemma_prefix_succeeds(st, acts, m);
        lemma_overlay_at(st, acts, k);
        lemma_last_write(acts, k);
        lemma_last_write_last(acts, k);
        assert(!(acts[m] is Symlink));
        if last_write(acts.take(m), k) is None && !(a is ReplaceSymlink) {
            let w = last_write(acts, k)->0;
            let j = choose|j: int|
                0 <= j < acts.len() && action_key(acts[j]) == k && w == action_node(#[trigger] acts[j])
                    && forall|q: int| j < q < acts.len() ==> action_key(#[trigger] acts[q]) != k;
            assert(s[k] == w);
            if j < m {
                assert(acts.take(m)[j] == acts[j]);
                lemma_last_write(acts.take(m), k);
            } else if j > m {
                if a is CreateDirAll {
                    lemma_dir_stays(st, acts, m, j);
                } else {
                    lemma_file_never_dir(st, acts, m, j);
                }
            }
        }
        assert(apply_action(s, a) == Some(s.insert(k, action_node(a))));
    }
}

/// Law: carrying out a list of actions a second time leaves the filesystem as the first
/// time left it, where the first time succeeded, no action is a plain link and no
/// directory that an action creates is replaced by a link.
pub proof fn law_actions_idempotent(st: Map<Seq<char>, FsNode>, acts: Seq<FsActionSpec>)
    requires
        no_plain_symlink(acts),
        no_dir_replaced_by_link(acts),
        apply_actions(st, acts) is Some,
    ensures
        apply_actions(apply_actions(st, acts)->0, acts) == apply_actions(st, acts),
{
    lemma_apply_is_overlay(st, acts);
    lemma_second_run(st, acts, acts.len() as int);
    assert(acts.take(acts.len() as int) =~= acts);
    lemma_overlay_twice(st, acts);
}

/// Copying makes directories and copies only, no links.
proof fn lemma_copy_makes_no_links(site: Seq<char>, source: Seq<char>, es: Seq<WalkEntry>)
    ensures
        forall|i: int|
            0 <= i < copy_actions(site, source, es).len() ==> (#[trigger] copy_actions(site, source, es)[i] is CreateDirAll
                || copy_actions(site, source, es)[i] is Copy),
    decreases es.len(),
{
    if es.len() > 0 {
        lemma_copy_makes_no_links(site, source, es.drop_last());
        let prev = copy_actions(site, source, es.drop_last());
        let last = copy_entry_actions(site, source, es.last());
        let all = copy_actions(site, source, es);
        assert(all == prev + last);
        assert forall|i: int| 0 <= i < all.len() implies (#[trigger] all[i] is CreateDirAll || all[i] is Copy) by {
            if i < prev.len() {
                assert(all[i] == prev[i]);
            } else {
                assert(all[i] == last[i - prev.len()]);
            }
        }
    }
}

proof fn lemma_walk_no_plain_symlink(child_path: Seq<char>, ct: Seq<char>, es: Seq<WalkEntry>)
    ensures
        no_plain_symlink(link_walk_steps(child_path, ct, es).0),
    decreases es.len(),
{
    if es.len() > 0 {
        lemma_walk_no_plain_symlink(child_path, ct, es.drop_last());
        let prev = link_walk_steps(child_path, ct, es.drop_last());
        if prev.1 is None {
            let step = link_entry_step(child_path, ct, es.last());
            let all = link_walk_steps(child_path, ct, es).0;
            assert(all == prev.0 + step.0);
            assert forall|i: int| 0 <= i < all.len() implies !(#[trigger] all[i] is Symlink) by {
                if i < prev.0.len() {
                    assert(all[i] == prev.0[i]);
                } else {
                    assert(all[i] == step.0[i - prev.0.len()]);
                }
            }
        }
    }
}

proof fn lemma_children_no_plain_symlink(site: Seq<char>, cs: Seq<SourceChild>)
    ensures
        no_plain_symlink(children_steps(site, cs).0),
    decreases cs.len(),
{
    if cs.len() > 0 {
        lemma_children_no_plain_symlink(site, cs.drop_last());
        let prev = children_steps(site, cs.drop_last());
        if prev.1 is None {
            let c = cs.last();
            let step = child_step(site, c, cs.len() - 1);
            if let Some(name) = spec_path_file_name(c.path@) {
                lemma_walk_no_plain_symlink(c.path@, spec_path_join(site, name), c.walk.entries@);
            }
            let all = children_steps(site, cs).0;
            assert(all == prev.0 + step.0);
            assert forall|i: int| 0 <= i < all.len() implies !(#[trigger] all[i] is Symlink) by {
                if i < prev.0.len() {
                    assert(all[i] == prev.0[i]);
                } else {
                    assert(all[i] == step.0[i - prev.0.len()]);
                }
            }
        }
    }
}

/// Law: copying a tree a second time leaves `site-packages` as the first time left it,
/// where the first time succeeded.
pub proof fn law_copy_plan_idempotent(
    site: Seq<char>,
    source: Seq<char>,
    es: Seq<WalkEntry>,
    st: Map<Seq<char>, FsNode>,
)
    requires
        apply_actions(st, copy_actions(site, source, es)) is Some,
    ensures
        ({
            let acts = copy_actions(site, source, es);
            apply_actions(apply_actions(st, acts)->0, acts) == apply_actions(st, acts)
        }),
{
    let acts = copy_actions(site, source, es);
    lemma_copy_makes_no_links(site, source, es);
    assert(no_plain_symlink(acts));
    assert(no_dir_replaced_by_link(acts));
    law_actions_idempotent(st, acts);
}

/// Law: linking an existing source tree a second time leaves `site-packages` as the first
/// time left it, where the first time succeeded and no directory that the plan creates
/// is one that it replaces by a link. (Where the source is missing, the plan makes a
/// plain link, which a second run finds already there.)
pub proof fn law_symlink_plan_idempotent(
    site: Seq<char>,
    source: Seq<char>,
    cs: Seq<SourceChild>,
    listing_failed: bool,
    st: Map<Seq<char>, FsNode>,
)
    requires
        no_dir_replaced_by_link(spec_symlink_plan(site, source, true, cs, listing_failed).0),
        apply_actions(st, spec_symlink_plan(site, source, true, cs, listing_failed).0) is Some,
    ensures
        ({
            let acts = spec_symlink_plan(site, source, true, cs, listing_failed).0;
            apply_actions(apply_actions(st, acts)->0, acts) == apply_actions(st, acts)
        }),
{
    lemma_children_no_plain_symlink(site, cs);
    law_actions_idempotent(st, spec_symlink_plan(site, source, true, cs, listing_failed).0);
}

} // verus!
