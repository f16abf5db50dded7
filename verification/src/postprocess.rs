//! The decisions that turn a standard virtual environment into one that runs from the
//! Bazel runfiles tree: the `pyvenv.cfg` settings, what each manifest entry puts into
//! `site-packages`, the `_bazel.pth` file and where the shim goes.
use vstd::prelude::*;
use crate::manifest::{BazelPopulationStrategy, BazelPthManifest, BazelSiteEntry};
use crate::path_ops::{
    path_file_name, path_join, path_parent, path_strip_prefix, spec_path_file_name,
    spec_path_join, spec_path_parent, spec_path_strip_prefix,
};
use crate::path_ops::spec_path_components;
use crate::populate::{
    follow_components, law_relative_components_lead_to_path, no_parent_components, relative_components,
    relative_to, spec_relative_to,
};
use crate::pyvenv_cfg::{cfg_line, cfg_of_lines, law_setting_line_round_trip, views};
use crate::text::{
    char_index, lemma_char_index_append, spec_is_whitespace, trim_end, trim_start, trimmed,
};
use crate::shim::opt_view;
use crate::target::{
    index_of_target, interpreter_target_triple, select_shim, spec_missing_shim_message,
    spec_target_triple,
};

verus! {

/// The repository named by `BAZEL_WORKSPACE`, or `_main` where that is not set.
pub open spec fn spec_workspace_repo(bazel_workspace: Option<Seq<char>>) -> Seq<char> {
    match bazel_workspace {
        Some(w) => w,
        None => "_main"@,
    }
}

/// The interpreter's runfiles path, as the shim looks it up below
/// `<runfiles root>/<repo>`: where the runfiles root is known and the interpreter lies
/// below it, the relative path from `<root>/<repo>` to the interpreter; otherwise
/// (there is no runfiles path) the executable's path as given, which the shim's
/// lookups take as it is.
pub open spec fn spec_interpreter_rloc(
    sys_executable: Seq<char>,
    runfiles_root: Option<Seq<char>>,
    repo: Seq<char>,
) -> Seq<char> {
    match runfiles_root {
        Some(root) => if spec_path_strip_prefix(sys_executable, root) is Some {
            match spec_relative_to(sys_executable, spec_path_join(root, repo)) {
                Some(rel) => rel,
                None => sys_executable,
            }
        } else {
            sys_executable
        },
        None => sys_executable,
    }
}

/// The interpreter's runfiles path, as `spec_interpreter_rloc` says.
pub fn interpreter_rloc(sys_executable: &str, runfiles_root: &Option<String>, repo: &str) -> (r: String)
    ensures
        r@ == spec_interpreter_rloc(sys_executable@, opt_view(*runfiles_root), repo@),
{
    match runfiles_root {
        Some(root) => {
            if path_strip_prefix(sys_executable, root.as_str()).is_some() {
                let base = path_join(root.as_str(), repo);
                match relative_to(sys_executable, base.as_str()) {
                    Ok(rel) => rel,
                    Err(_) => String::from_str(sys_executable),
                }
            } else {
                String::from_str(sys_executable)
            }
        },
        None => String::from_str(sys_executable),
    }
}

/// The settings that the shim needs in `pyvenv.cfg`, in the order in which they are
/// written: the interpreter's runfiles path (`aspect-runfiles-interpreter`), the
/// runfiles repository (`aspect-runfiles-repo`) and the interpreter's absolute path
/// (`aspect-absolute-interpreter`).
pub open spec fn spec_bazel_settings(
    sys_executable: Seq<char>,
    runfiles_root: Option<Seq<char>>,
    bazel_workspace: Option<Seq<char>>,
) -> Seq<(Seq<char>, Seq<char>)> {
    let repo = spec_workspace_repo(bazel_workspace);
    seq![
        ("aspect-runfiles-interpreter"@, spec_interpreter_rloc(sys_executable, runfiles_root, repo)),
        ("aspect-runfiles-repo"@, repo),
        ("aspect-absolute-interpreter"@, sys_executable),
    ]
}

/// The views of a list of settings.
pub open spec fn setting_views(s: Seq<(String, String)>) -> Seq<(Seq<char>, Seq<char>)> {
    s.map_values(|p: (String, String)| (p.0@, p.1@))
}

/// The settings to record in `pyvenv.cfg`, given the interpreter's executable, the
/// runfiles root (if known) and the value of `BAZEL_WORKSPACE` (`None` where it is not
/// set).
pub fn bazel_pyvenv_settings(
    sys_executable: &str,
    runfiles_root: &Option<String>,
    bazel_workspace: &Option<String>,
) -> (r: Vec<(String, String)>)
    ensures
        setting_views(r@) == spec_bazel_settings(
            sys_executable@,
            opt_view(*runfiles_root),
            opt_view(*bazel_workspace),
        ),
{
    let repo = match bazel_workspace {
        Some(w) => w.clone(),
        None => String::from_str("_main"),
    };
    let rloc = interpreter_rloc(sys_executable, runfiles_root, repo.as_str());
    let mut r: Vec<(String, String)> = Vec::new();
    r.push((String::from_str("aspect-runfiles-interpreter"), rloc));
    r.push((String::from_str("aspect-runfiles-repo"), repo));
    r.push((String::from_str("aspect-absolute-interpreter"), String::from_str(sys_executable)));
    assert(setting_views(r@) =~= spec_bazel_settings(
        sys_executable@,
        opt_view(*runfiles_root),
        opt_view(*bazel_workspace),
    ));
    r
}

/// Law: the settings recorded for the shim, in order, are: the interpreter's runfiles
/// path, which, where the interpreter lies below a known runfiles root and a relative
/// path from `<root>/<repo>` to it exists, is that path, and following its components
/// from `<root>/<repo>` leads to the interpreter (where neither path has a `..`
/// component), and is otherwise the executable's path; the repository, which is
/// `BAZEL_WORKSPACE` or `_main`; and the executable's path.
pub proof fn law_settings_locate_interpreter(
    sys_executable: Seq<char>,
    runfiles_root: Option<Seq<char>>,
    bazel_workspace: Option<Seq<char>>,
)
    ensures
        ({
            let s = spec_bazel_settings(sys_executable, runfiles_root, bazel_workspace);
            let repo = if bazel_workspace is Some {
                bazel_workspace->0
            } else {
                "_main"@
            };
            &&& s.len() == 3
            &&& s[0].0 == "aspect-runfiles-interpreter"@
            &&& s[1] == ("aspect-runfiles-repo"@, repo)
            &&& s[2] == ("aspect-absolute-interpreter"@, sys_executable)
            &&& runfiles_root is None ==> s[0].1 == sys_executable
            &&& runfiles_root matches Some(root) ==> (spec_path_strip_prefix(sys_executable, root) is None ==> s[0].1
                == sys_executable)
            &&& runfiles_root matches Some(root) ==> (spec_path_strip_prefix(sys_executable, root) is Some ==> (
            spec_relative_to(sys_executable, spec_path_join(root, repo)) matches Some(l) ==> {
                let base = spec_path_components(spec_path_join(root, repo));
                let exe = spec_path_components(sys_executable);
                &&& s[0].1 == l
                &&& no_parent_components(exe) && no_parent_components(base) ==> follow_components(
                    base,
                    relative_components(exe, base),
                ) == exe
            }))
        }),
{
    if let Some(root) = runfiles_root {
        let repo = spec_workspace_repo(bazel_workspace);
        let base = spec_path_components(spec_path_join(root, repo));
        let exe = spec_path_components(sys_executable);
        if no_parent_components(exe) && no_parent_components(base) {
            law_relative_components_lead_to_path(exe, base);
        }
    }
}

/// Law: the shim replaces `python` in the scripts directory, and on Windows
/// `python.exe` and, exactly where it is present, `pythonw.exe`.
pub proof fn law_shim_replaces_interpreters(scripts: Seq<char>, windows: bool, pythonw_exists: bool)
    ensures
        !windows ==> spec_shim_destinations(scripts, windows, pythonw_exists) == seq![spec_path_join(scripts, "python"@)],
        windows ==> spec_shim_destinations(scripts, windows, pythonw_exists)[0] == spec_path_join(scripts, "python.exe"@),
        windows ==> spec_shim_destinations(scripts, windows, pythonw_exists).len() == (if pythonw_exists {
            2int
        } else {
            1int
        }),
        windows && pythonw_exists ==> spec_shim_destinations(scripts, windows, pythonw_exists)[1] == spec_path_join(
            scripts,
            "pythonw.exe"@,
        ),
{
}

/// The `<venv name>.runfiles` directory beside the virtual environment, where the
/// environment's path has a parent.
pub open spec fn spec_runfiles_sibling(venv_root: Seq<char>) -> Option<Seq<char>> {
    match spec_path_parent(venv_root) {
        Some(dir) => Some(
            spec_path_join(
                dir,
                (match spec_path_file_name(venv_root) {
                    Some(n) => n,
                    None => Seq::empty(),
                }) + ".runfiles"@,
            ),
        ),
        None => None,
    }
}

/// The `<venv name>.runfiles` directory beside the virtual environment.
pub fn runfiles_sibling(venv_root: &str) -> (r: Option<String>)
    ensures
        opt_view(r) == spec_runfiles_sibling(venv_root@),
{
    match path_parent(venv_root) {
        Some(dir) => {
            let name = match path_file_name(venv_root) {
                Some(n) => n,
                None => String::new(),
            };
            let sibling_name = name.concat(".runfiles");
            Some(path_join(dir.as_str(), sibling_name.as_str()))
        },
        None => None,
    }
}

/// The runfiles root: `RUNFILES_DIR` where it is set; otherwise the sibling
/// `.runfiles` directory where it is a directory; otherwise none.
pub open spec fn spec_runfiles_root(
    venv_root: Seq<char>,
    runfiles_dir: Option<Seq<char>>,
    sibling_is_dir: bool,
) -> Option<Seq<char>> {
    match runfiles_dir {
        Some(d) => Some(d),
        None => if sibling_is_dir {
            spec_runfiles_sibling(venv_root)
        } else {
            None
        },
    }
}

/// The runfiles root of the virtual environment at `venv_root`: `runfiles_dir` (the value
/// of `RUNFILES_DIR`) where it is set; otherwise the sibling `.runfiles` directory, where
/// `sibling_is_dir` says that it is a directory.
pub fn resolve_runfiles_root(venv_root: &str, runfiles_dir: &Option<String>, sibling_is_dir: bool) -> (r:
    Option<String>)
    ensures
        opt_view(r) == spec_runfiles_root(venv_root@, opt_view(*runfiles_dir), sibling_is_dir),
{
    match runfiles_dir {
        Some(d) => Some(d.clone()),
        None => if sibling_is_dir {
            runfiles_sibling(venv_root)
        } else {
            None
        },
    }
}

/// What a manifest entry asks for.
pub enum EntryAction {
    /// Add this line to `_bazel.pth`.
    PthLine(String),
    /// Link the contents of `source` into `site-packages`.
    Symlinks { source: String },
    /// No runfiles tree is known: create a link at `link` to the relative `target`,
    /// which may dangle until the runfiles tree exists.
    DanglingSymlink { target: String, link: String },
    /// Copy the tree at `source` into `site-packages`.
    Copies { source: String },
    /// Nothing (a copy with no runfiles tree to copy from).
    Skip,
}

/// The mathematical form of an `EntryAction`.
pub enum EntryActionSpec {
    PthLine(Seq<char>),
    Symlinks(Seq<char>),
    DanglingSymlink(Seq<char>, Seq<char>),
    Copies(Seq<char>),
    Skip,
}

impl View for EntryAction {
    type V = EntryActionSpec;

    open spec fn view(&self) -> EntryActionSpec {
        match self {
            EntryAction::PthLine(l) => EntryActionSpec::PthLine(l@),
            EntryAction::Symlinks { source } => EntryActionSpec::Symlinks(source@),
            EntryAction::DanglingSymlink { target, link } => EntryActionSpec::DanglingSymlink(
                target@,
                link@,
            ),
            EntryAction::Copies { source } => EntryActionSpec::Copies(source@),
            EntryAction::Skip => EntryActionSpec::Skip,
        }
    }
}

/// The path of an entry relative to `site-packages`: `../../<repo>/<path>`.
pub open spec fn spec_pth_line(repo: Seq<char>, path: Seq<char>) -> Seq<char> {
    "../../"@ + repo + "/"@ + path
}

/// Where an entry lies in the runfiles tree, where the root is known.
pub open spec fn spec_entry_source(root: Option<Seq<char>>, repo: Seq<char>, path: Seq<char>) -> Option<
    Seq<char>,
> {
    match root {
        Some(r) => Some(spec_path_join(spec_path_join(r, repo), path)),
        None => None,
    }
}

/// What one manifest entry asks for: a `.pth` line; links into its source (or, with no
/// runfiles tree, one link named after the entry's path, or its repository where the
/// path has no file name, to its relative location); copies of its source (or nothing).
pub open spec fn spec_entry_action(
    repo: Seq<char>,
    path: Seq<char>,
    strategy: BazelPopulationStrategy,
    root: Option<Seq<char>>,
    site_packages: Seq<char>,
) -> EntryActionSpec {
    match strategy {
        BazelPopulationStrategy::Pth => EntryActionSpec::PthLine(spec_pth_line(repo, path)),
        BazelPopulationStrategy::Symlink => match spec_entry_source(root, repo, path) {
            Some(s) => EntryActionSpec::Symlinks(s),
            None => EntryActionSpec::DanglingSymlink(
                spec_pth_line(repo, path),
                spec_path_join(
                    site_packages,
                    match spec_path_file_name(path) {
                        Some(n) => n,
                        None => repo,
                    },
                ),
            ),
        },
        BazelPopulationStrategy::Copy => match spec_entry_source(root, repo, path) {
            Some(s) => EntryActionSpec::Copies(s),
            None => EntryActionSpec::Skip,
        },
    }
}

/// Law: what an entry asks for follows its strategy alone. `pth` adds the line
/// `../../<repo>/<path>`. With a runfiles root, `symlink` links and `copy` copies the
/// tree at `<root>/<repo>/<path>`. With none, `symlink` makes a link named after the
/// path (or the repository, where the path has no file name) in `site-packages` to
/// `../../<repo>/<path>`, and `copy` does nothing.
pub proof fn law_entry_action_by_strategy(
    repo: Seq<char>,
    path: Seq<char>,
    root: Option<Seq<char>>,
    site_packages: Seq<char>,
)
    ensures
        spec_entry_action(repo, path, BazelPopulationStrategy::Pth, root, site_packages) == EntryActionSpec::PthLine(
            "../../"@ + repo + "/"@ + path,
        ),
        root matches Some(r) ==> spec_entry_action(repo, path, BazelPopulationStrategy::Symlink, root, site_packages)
            == EntryActionSpec::Symlinks(spec_path_join(spec_path_join(r, repo), path)),
        root matches Some(r) ==> spec_entry_action(repo, path, BazelPopulationStrategy::Copy, root, site_packages)
            == EntryActionSpec::Copies(spec_path_join(spec_path_join(r, repo), path)),
        root is None ==> spec_entry_action(repo, path, BazelPopulationStrategy::Symlink, root, site_packages)
            == EntryActionSpec::DanglingSymlink(
            "../../"@ + repo + "/"@ + path,
            spec_path_join(
                site_packages,
                if spec_path_file_name(path) is Some {
                    spec_path_file_name(path)->0
                } else {
                    repo
                },
            ),
        ),
        root is None ==> spec_entry_action(repo, path, BazelPopulationStrategy::Copy, root, site_packages)
            == EntryActionSpec::Skip,
{
}

/// Law: the runfiles root is `RUNFILES_DIR` whenever that is set, whatever is beside the
/// environment; otherwise the directory `<parent>/<venv name>.runfiles` beside the
/// environment where that is a directory; otherwise none.
pub proof fn law_runfiles_root_choice(venv_root: Seq<char>, runfiles_dir: Option<Seq<char>>, sibling_is_dir: bool)
    ensures
        runfiles_dir matches Some(d) ==> spec_runfiles_root(venv_root, runfiles_dir, sibling_is_dir) == Some(d),
        runfiles_dir is None && !sibling_is_dir ==> spec_runfiles_root(venv_root, runfiles_dir, sibling_is_dir)
            is None,
        runfiles_dir is None && sibling_is_dir ==> (spec_path_parent(venv_root) matches Some(dir) ==> (
        spec_path_file_name(venv_root) matches Some(n) ==> spec_runfiles_root(venv_root, runfiles_dir, sibling_is_dir)
            == Some(spec_path_join(dir, n + ".runfiles"@)))),
{
}

/// The `.pth` line of an entry: `../../<repo>/<path>`.
pub fn pth_line(repo: &str, path: &str) -> (r: String)
    ensures
        r@ == spec_pth_line(repo@, path@),
{
    String::from_str("../../").concat(repo).concat("/").concat(path)
}

/// What one manifest entry asks for, given the runfiles root (if known) and the
/// environment's `site-packages`.
pub fn entry_action(entry: &BazelSiteEntry, runfiles_root: &Option<String>, site_packages: &str) -> (r:
    EntryAction)
    ensures
        r@ == spec_entry_action(
            entry.repo@,
            entry.path@,
            entry.strategy,
            opt_view(*runfiles_root),
            site_packages@,
        ),
{
    let source = match runfiles_root {
        Some(root) => Some(
            path_join(path_join(root.as_str(), entry.repo.as_str()).as_str(), entry.path.as_str()),
        ),
        None => None,
    };
    assert(opt_view(source) == spec_entry_source(opt_view(*runfiles_root), entry.repo@, entry.path@));
    match entry.strategy {
        BazelPopulationStrategy::Pth => EntryAction::PthLine(
            pth_line(entry.repo.as_str(), entry.path.as_str()),
        ),
        BazelPopulationStrategy::Symlink => match source {
            Some(s) => EntryAction::Symlinks { source: s },
            None => {
                let link_name = match path_file_name(entry.path.as_str()) {
                    Some(n) => n,
                    None => entry.repo.clone(),
                };
                EntryAction::DanglingSymlink {
                    target: pth_line(entry.repo.as_str(), entry.path.as_str()),
                    link: path_join(site_packages, link_name.as_str()),
                }
            },
        },
        BazelPopulationStrategy::Copy => match source {
            Some(s) => EntryAction::Copies { source: s },
            None => EntryAction::Skip,
        },
    }
}

/// What each manifest entry asks for, in the manifest's order.
pub fn plan_entries(entries: &Vec<BazelSiteEntry>, runfiles_root: &Option<String>, site_packages: &str) -> (r:
    Vec<EntryAction>)
    ensures
        r.len() == entries.len(),
        forall|i: int|
            0 <= i < entries.len() ==> #[trigger] r@[i]@ == spec_entry_action(
                entries@[i].repo@,
                entries@[i].path@,
                entries@[i].strategy,
                opt_view(*runfiles_root),
                site_packages@,
            ),
{
    let mut r: Vec<EntryAction> = Vec::new();
    let mut i: usize = 0;
    while i < entries.len()
        invariant
            i <= entries.len(),
            r.len() == i,
            forall|j: int|
                0 <= j < i ==> #[trigger] r@[j]@ == spec_entry_action(
                    entries@[j].repo@,
                    entries@[j].path@,
                    entries@[j].strategy,
                    opt_view(*runfiles_root),
                    site_packages@,
                ),
        decreases entries.len() - i,
    {
        let a = entry_action(&entries[i], runfiles_root, site_packages);
        r.push(a);
        i = i + 1;
    }
    r
}

/// The `.pth` lines of the `pth` entries, in the manifest's order.
pub open spec fn spec_pth_lines(entries: Seq<BazelSiteEntry>) -> Seq<Seq<char>>
    decreases entries.len(),
{
    if entries.len() == 0 {
        seq![]
    } else {
        let rest = spec_pth_lines(entries.drop_last());
        let e = entries.last();
        if e.strategy == BazelPopulationStrategy::Pth {
            rest.push(spec_pth_line(e.repo@, e.path@))
        } else {
            rest
        }
    }
}

/// Law: the `.pth` lines of a manifest are those of its first part followed by those of
/// the rest, so an entry's line never depends on the entries around it; and one entry
/// gives the line `../../<repo>/<path>` where its strategy is `pth`, and none otherwise.
pub proof fn law_pth_lines_per_entry(a: Seq<BazelSiteEntry>, b: Seq<BazelSiteEntry>, e: BazelSiteEntry)
    ensures
        spec_pth_lines(a + b) == spec_pth_lines(a) + spec_pth_lines(b),
        spec_pth_lines(seq![e]) == (if e.strategy == BazelPopulationStrategy::Pth {
            seq!["../../"@ + e.repo@ + "/"@ + e.path@]
        } else {
            Seq::<Seq<char>>::empty()
        }),
    decreases b.len(),
{
    let one = seq![e];
    assert(one.drop_last() =~= Seq::<BazelSiteEntry>::empty());
    assert(one.last() == e);
    assert(spec_pth_lines(one.drop_last()) =~= Seq::<Seq<char>>::empty());
    if e.strategy == BazelPopulationStrategy::Pth {
        assert(spec_pth_lines(one) =~= seq![spec_pth_line(e.repo@, e.path@)]);
    } else {
        assert(spec_pth_lines(one) =~= Seq::<Seq<char>>::empty());
    }
    if b.len() == 0 {
        assert(a + b =~= a);
        assert(spec_pth_lines(a) + spec_pth_lines(b) =~= spec_pth_lines(a));
    } else {
        law_pth_lines_per_entry(a, b.drop_last(), e);
        assert((a + b).drop_last() =~= a + b.drop_last());
        assert((a + b).last() == b.last());
        let x = b.last();
        if x.strategy == BazelPopulationStrategy::Pth {
            assert(spec_pth_lines(a) + spec_pth_lines(b) =~= (spec_pth_lines(a) + spec_pth_lines(b.drop_last())).push(
                spec_pth_line(x.repo@, x.path@),
            ));
        }
    }
}

/// The `.pth` lines of the `pth` entries, in the manifest's order.
pub fn pth_lines(entries: &Vec<BazelSiteEntry>) -> (r: Vec<String>)
    ensures
        views(r@) == spec_pth_lines(entries@),
{
    let mut r: Vec<String> = Vec::new();
    let mut i: usize = 0;
    assert(views(r@) =~= spec_pth_lines(entries@.take(0)));
    while i < entries.len()
        invariant
            i <= entries.len(),
            views(r@) == spec_pth_lines(entries@.take(i as int)),
        decreases entries.len() - i,
    {
        assert(entries@.take(i + 1).drop_last() =~= entries@.take(i as int));
        assert(entries@.take(i + 1).last() == entries@[i as int]);
        let ghost before = views(r@);
        if entries[i].strategy == BazelPopulationStrategy::Pth {
            r.push(pth_line(entries[i].repo.as_str(), entries[i].path.as_str()));
            assert(views(r@) =~= before.push(spec_pth_line(entries@[i as int].repo@, entries@[i as int].path@)));
        }
        i = i + 1;
    }
    assert(entries@.take(entries.len() as int) =~= entries@);
    r
}

/// Lines, each followed by a newline.
pub open spec fn lines_text(lines: Seq<Seq<char>>) -> Seq<char>
    decreases lines.len(),
{
    if lines.len() == 0 {
        seq![]
    } else {
        lines_text(lines.drop_last()) + lines.last() + seq!['\n']
    }
}

/// The contents of `_bazel.pth`: the lines joined by newlines with a final newline;
/// none (no file is written) where there are no lines.
pub fn pth_file_contents(lines: &Vec<String>) -> (r: Option<String>)
    ensures
        lines.len() == 0 ==> r is None,
        lines.len() > 0 ==> (r matches Some(text) && text@ == lines_text(views(lines@))),
{
    if lines.len() == 0 {
        return None;
    }
    let mut text = String::new();
    let mut i: usize = 0;
    assert(text@ =~= lines_text(views(lines@).take(0)));
    while i < lines.len()
        invariant
            i <= lines.len(),
            text@ == lines_text(views(lines@).take(i as int)),
        decreases lines.len() - i,
    {
        assert(views(lines@).take(i + 1).drop_last() =~= views(lines@).take(i as int));
        assert(views(lines@).take(i + 1).last() == lines@[i as int]@);
        text.append(lines[i].as_str());
        proof {
            reveal_strlit("\n");
        }
        text.append("\n");
        i = i + 1;
    }
    assert(views(lines@).take(lines.len() as int) =~= views(lines@));
    Some(text)
}

/// Where `_bazel.pth` goes: `site-packages/_bazel.pth`.
pub fn pth_file_path(site_packages: &str) -> (r: String)
    ensures
        r@ == spec_path_join(site_packages@, "_bazel.pth"@),
{
    path_join(site_packages, "_bazel.pth")
}

/// The executables that the shim replaces in the scripts directory: `python`, or on
/// Windows `python.exe` and, only where it is present, `pythonw.exe`.
pub open spec fn spec_shim_destinations(scripts: Seq<char>, windows: bool, pythonw_exists: bool) -> Seq<
    Seq<char>,
> {
    if windows {
        if pythonw_exists {
            seq![spec_path_join(scripts, "python.exe"@), spec_path_join(scripts, "pythonw.exe"@)]
        } else {
            seq![spec_path_join(scripts, "python.exe"@)]
        }
    } else {
        seq![spec_path_join(scripts, "python"@)]
    }
}

/// Where `pythonw.exe` would be in the scripts directory, so that its presence can be
/// checked.
pub fn pythonw_path(scripts: &str) -> (r: String)
    ensures
        r@ == spec_path_join(scripts@, "pythonw.exe"@),
{
    path_join(scripts, "pythonw.exe")
}

/// The executables that the shim replaces in the scripts directory; `pythonw_exists`
/// tells whether `pythonw.exe` is present there (it matters on Windows only).
pub fn shim_destinations(scripts: &str, windows: bool, pythonw_exists: bool) -> (r: Vec<String>)
    ensures
        views(r@) == spec_shim_destinations(scripts@, windows, pythonw_exists),
{
    let mut r: Vec<String> = Vec::new();
    if windows {
        r.push(path_join(scripts, "python.exe"));
        if pythonw_exists {
            r.push(pythonw_path(scripts));
        }
    } else {
        r.push(path_join(scripts, "python"));
    }
    assert(views(r@) =~= spec_shim_destinations(scripts@, windows, pythonw_exists));
    r
}

/// Everything that post-processing a virtual environment decides, in the order in which
/// it is carried out.
pub struct PostprocessPlan {
    /// The settings to record in `pyvenv.cfg`.
    pub settings: Vec<(String, String)>,
    /// What each manifest entry asks for, in the manifest's order.
    pub entry_actions: Vec<EntryAction>,
    /// Where `_bazel.pth` goes and what it holds, where there are `pth` entries.
    pub pth_file: Option<(String, String)>,
    /// The position of the shim among those on offer, or the message that none fits.
    pub shim: Result<usize, String>,
    /// The executables that the shim replaces.
    pub shim_destinations: Vec<String>,
}

/// The decisions of post-processing: the `pyvenv.cfg` settings, what each manifest entry
/// asks for (given the runfiles root, if known), the `_bazel.pth` file, the shim for the
/// interpreter's platform (`os`, `arch`, `libc`) among those on offer, and the
/// executables that it replaces in `scripts` (`windows` selects the Windows names, and
/// `pythonw_exists` tells whether `pythonw.exe` is present to be replaced).
pub fn plan_postprocess(
    manifest: &BazelPthManifest,
    sys_executable: &str,
    bazel_workspace: &Option<String>,
    site_packages: &str,
    runfiles_root: &Option<String>,
    os: &str,
    arch: &str,
    libc: &str,
    available_shims: &Vec<String>,
    scripts: &str,
    windows: bool,
    pythonw_exists: bool,
) -> (r: PostprocessPlan)
    ensures
        setting_views(r.settings@) == spec_bazel_settings(
            sys_executable@,
            opt_view(*runfiles_root),
            opt_view(*bazel_workspace),
        ),
        r.entry_actions.len() == manifest.entries.len(),
        forall|i: int|
            0 <= i < manifest.entries.len() ==> #[trigger] r.entry_actions@[i]@ == spec_entry_action(
                manifest.entries@[i].repo@,
                manifest.entries@[i].path@,
                manifest.entries@[i].strategy,
                opt_view(*runfiles_root),
                site_packages@,
            ),
        spec_pth_lines(manifest.entries@).len() == 0 ==> r.pth_file is None,
        spec_pth_lines(manifest.entries@).len() > 0 ==> (r.pth_file matches Some((path, text)) && path@
            == spec_path_join(site_packages@, "_bazel.pth"@) && text@ == lines_text(
            spec_pth_lines(manifest.entries@),
        )),
        r.shim matches Ok(i) ==> spec_target_triple(os@, arch@, libc@) matches Some(t) && index_of_target(
            views(available_shims@),
            t,
        ) == Some(i as int),
        r.shim matches Err(e) ==> e@ == spec_missing_shim_message(spec_target_triple(os@, arch@, libc@)),
        r.shim is Err <==> (spec_target_triple(os@, arch@, libc@) is None || index_of_target(
            views(available_shims@),
            spec_target_triple(os@, arch@, libc@)->0,
        ) is None),
        views(r.shim_destinations@) == spec_shim_destinations(scripts@, windows, pythonw_exists),
{
    let settings = bazel_pyvenv_settings(sys_executable, runfiles_root, bazel_workspace);
    let entry_actions = plan_entries(&manifest.entries, runfiles_root, site_packages);
    let lines = pth_lines(&manifest.entries);
    let pth_file = match pth_file_contents(&lines) {
        Some(text) => Some((pth_file_path(site_packages), text)),
        None => None,
    };
    let target = interpreter_target_triple(os, arch, libc);
    assert(opt_view(target) == spec_target_triple(os@, arch@, libc@));
    let shim = select_shim(&target, available_shims);
    let shim_destinations = shim_destinations(scripts, windows, pythonw_exists);
    PostprocessPlan { settings, entry_actions, pth_file, shim, shim_destinations }
}

/// Settings written as `pyvenv.cfg` lines in the `key = value` form.
pub open spec fn setting_lines(s: Seq<(Seq<char>, Seq<char>)>) -> Seq<Seq<char>> {
    s.map_values(|p: (Seq<char>, Seq<char>)| cfg_line(p.0, p.1))
}

/// A key made of characters that are neither `=` nor whitespace reads back whole.
proof fn lemma_plain_key(k: Seq<char>)
    requires
        k.len() > 0,
        forall|j: int| 0 <= j < k.len() ==> k[j] != '=' && !spec_is_whitespace(k[j]),
    ensures
        forall|j: int| 0 <= j < k.len() ==> k[j] != '=',
        trimmed(k) == k,
{
    assert(!spec_is_whitespace(k[0]));
    assert(trim_start(k) == k);
    assert(!spec_is_whitespace(k[k.len() - 1]));
    assert(trim_end(k) == k);
}

/// Law: the settings recorded in `pyvenv.cfg` are what the shim reads back: after the
/// recorded lines, whatever lines came before, `aspect-runfiles-interpreter` gives the
/// interpreter's runfiles path, `aspect-runfiles-repo` the repository and
/// `aspect-absolute-interpreter` the interpreter's executable (where none of them has
/// leading or trailing whitespace).
pub proof fn law_recorded_settings_reach_shim(
    existing: Seq<Seq<char>>,
    sys_executable: Seq<char>,
    runfiles_root: Option<Seq<char>>,
    bazel_workspace: Option<Seq<char>>,
)
    requires
        trimmed(sys_executable) == sys_executable,
        trimmed(spec_workspace_repo(bazel_workspace)) == spec_workspace_repo(bazel_workspace),
        trimmed(spec_interpreter_rloc(sys_executable, runfiles_root, spec_workspace_repo(bazel_workspace)))
            == spec_interpreter_rloc(sys_executable, runfiles_root, spec_workspace_repo(bazel_workspace)),
    ensures
        ({
            let cfg = cfg_of_lines(
                existing + setting_lines(spec_bazel_settings(sys_executable, runfiles_root, bazel_workspace)),
            );
            &&& cfg.contains_key("aspect-runfiles-interpreter"@)
            &&& cfg["aspect-runfiles-interpreter"@] == spec_interpreter_rloc(
                sys_executable,
                runfiles_root,
                spec_workspace_repo(bazel_workspace),
            )
            &&& cfg.contains_key("aspect-runfiles-repo"@)
            &&& cfg["aspect-runfiles-repo"@] == spec_workspace_repo(bazel_workspace)
            &&& cfg.contains_key("aspect-absolute-interpreter"@)
            &&& cfg["aspect-absolute-interpreter"@] == sys_executable
        }),
{
    reveal_strlit("aspect-runfiles-interpreter");
    reveal_strlit("aspect-runfiles-repo");
    reveal_strlit("aspect-absolute-interpreter");
    let k1 = "aspect-runfiles-interpreter"@;
    let k2 = "aspect-runfiles-repo"@;
    let k3 = "aspect-absolute-interpreter"@;
    let repo = spec_workspace_repo(bazel_workspace);
    let rloc = spec_interpreter_rloc(sys_executable, runfiles_root, repo);
    assert forall|j: int| 0 <= j < k1.len() implies k1[j] != '=' && !spec_is_whitespace(k1[j]) by {}
    assert forall|j: int| 0 <= j < k2.len() implies k2[j] != '=' && !spec_is_whitespace(k2[j]) by {}
    assert forall|j: int| 0 <= j < k3.len() implies k3[j] != '=' && !spec_is_whitespace(k3[j]) by {}
    lemma_plain_key(k1);
    lemma_plain_key(k2);
    lemma_plain_key(k3);
    law_setting_line_round_trip(k1, rloc);
    law_setting_line_round_trip(k2, repo);
    law_setting_line_round_trip(k3, sys_executable);
    assert(k1 != k2);
    assert(k1[7] != k3[7]);
    assert(k1 != k3);
    assert(k2 != k3);
    let l1 = cfg_line(k1, rloc);
    let l2 = cfg_line(k2, repo);
    let l3 = cfg_line(k3, sys_executable);
    let all = existing + setting_lines(spec_bazel_settings(sys_executable, runfiles_root, bazel_workspace));
    assert(setting_lines(spec_bazel_settings(sys_executable, runfiles_root, bazel_workspace)) =~= seq![
        l1,
        l2,
        l3,
    ]);
    assert(all.drop_last() =~= existing.push(l1).push(l2));
    assert(all.drop_last().drop_last() =~= existing.push(l1));
    assert(all.drop_last().drop_last().drop_last() =~= existing);
    assert(all.last() == l3);
    assert(all.drop_last().last() == l2);
    assert(all.drop_last().drop_last().last() == l1);
    let c0 = cfg_of_lines(existing);
    assert(cfg_of_lines(existing.push(l1)) == c0.insert(k1, rloc));
    assert(cfg_of_lines(existing.push(l1).push(l2)) == c0.insert(k1, rloc).insert(k2, repo));
    assert(cfg_of_lines(all) == c0.insert(k1, rloc).insert(k2, repo).insert(k3, sys_executable));
}

/// The lines of a text: the pieces between newlines, the last ending at a newline or at
/// the end of the text.
pub open spec fn lines_of(t: Seq<char>) -> Seq<Seq<char>>
    decreases t.len(),
{
    match char_index(t, '\n') {
        None => if t.len() == 0 {
            seq![]
        } else {
            seq![t]
        },
        Some(i) => if 0 <= i < t.len() {
            seq![t.take(i)] + lines_of(t.skip(i + 1))
        } else {
            seq![]
        },
    }
}

proof fn lemma_lines_text_front(lines: Seq<Seq<char>>)
    requires
        lines.len() > 0,
    ensures
        lines_text(lines) == lines[0] + seq!['\n'] + lines_text(lines.drop_first()),
    decreases lines.len(),
{
    if lines.len() == 1 {
        assert(lines.drop_last() =~= Seq::<Seq<char>>::empty());
        assert(lines.drop_first() =~= Seq::<Seq<char>>::empty());
        assert(lines_text(lines.drop_last()) =~= Seq::<char>::empty());
        assert(lines.last() == lines[0]);
        assert(lines_text(lines) =~= lines[0] + seq!['\n']);
    } else {
        lemma_lines_text_front(lines.drop_last());
        assert(lines.drop_last()[0] == lines[0]);
        assert(lines.drop_last().drop_first() =~= lines.drop_first().drop_last());
        assert(lines.drop_first().last() == lines.last());
        assert(lines_text(lines) =~= lines[0] + seq!['\n'] + lines_text(lines.drop_first()));
    }
}

/// Law: reading `_bazel.pth` line by line gives back exactly the lines written, in
/// order, where no line holds a newline.
pub proof fn law_pth_lines_read_back(lines: Seq<Seq<char>>)
    requires
        forall|k: int, j: int| 0 <= k < lines.len() && 0 <= j < lines[k].len() ==> #[trigger] lines[k][j] != '\n',
    ensures
        lines_of(lines_text(lines)) == lines,
    decreases lines.len(),
{
    if lines.len() == 0 {
        assert(lines_text(lines) =~= Seq::<char>::empty());
        crate::text::lemma_char_index(lines_text(lines), '\n');
        assert(lines_of(lines_text(lines)) =~= lines);
    } else {
        lemma_lines_text_front(lines);
        let first = lines[0];
        let rest = lines.drop_first();
        assert forall|k: int, j: int| 0 <= k < rest.len() && 0 <= j < rest[k].len() implies #[trigger] rest[k][j] != '\n' by {
            assert(rest[k] == lines[k + 1]);
        }
        law_pth_lines_read_back(rest);
        let t = lines_text(lines);
        assert forall|j: int| 0 <= j < first.len() implies first[j] != '\n' by {
            assert(lines[0][j] != '\n');
        }
        lemma_char_index_append(first, seq!['\n'] + lines_text(rest), '\n');
        assert(t =~= first + (seq!['\n'] + lines_text(rest)));
        assert((seq!['\n'] + lines_text(rest))[0] == '\n');
        assert(char_index(seq!['\n'] + lines_text(rest), '\n') == Some(0int));
        assert(char_index(t, '\n') == Some(first.len() as int));
        assert(t.take(first.len() as int) =~= first);
        assert(t.skip(first.len() as int + 1) =~= lines_text(rest));
        assert(lines_of(t) =~= seq![first] + rest);
        assert(seq![first] + rest =~= lines);
    }
}

} // verus!
