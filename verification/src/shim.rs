//! Decisions of the interpreter shim: where `pyvenv.cfg` is, which settings it needs,
//! and where the real interpreter lies in the Bazel runfiles tree.
use vstd::prelude::*;
use crate::path_ops::{
    path_file_name, path_join, path_parent, spec_path_file_name, spec_path_join,
    spec_path_parent,
};
use crate::pyvenv_cfg::{views, PyvenvCfg};
use crate::text::{
    char_index, chars_of, find_char_from, lemma_char_index, lemma_char_index_append, str_eq,
    substring,
};

verus! {

/// The position of the first `true` flag.
pub open spec fn first_true(flags: Seq<bool>) -> Option<int>
    decreases flags.len(),
{
    if flags.len() == 0 {
        None
    } else if flags[0] {
        Some(0)
    } else {
        match first_true(flags.drop_first()) {
            Some(i) => Some(i + 1),
            None => None,
        }
    }
}

/// `first_true` finds the first `true`, and finds none only where there is none.
pub proof fn lemma_first_true(flags: Seq<bool>)
    ensures
        first_true(flags) matches Some(i) ==> {
            &&& 0 <= i < flags.len()
            &&& flags[i]
            &&& forall|j: int| 0 <= j < i ==> !flags[j]
        },
        first_true(flags) is None ==> forall|j: int| 0 <= j < flags.len() ==> !flags[j],
    decreases flags.len(),
{
    if flags.len() > 0 && !flags[0] {
        lemma_first_true(flags.drop_first());
        assert forall|j: int| 1 <= j < flags.len() implies flags[j] == flags.drop_first()[j - 1] by {}
    }
}

/// The position of the first `true` flag, found by a scan.
pub fn first_flagged(flags: &Vec<bool>) -> (r: Option<usize>)
    ensures
        r matches Some(i) ==> first_true(flags@) == Some(i as int),
        r is None ==> first_true(flags@) is None,
{
    proof {
        lemma_first_true(flags@);
    }
    let mut i: usize = 0;
    while i < flags.len()
        invariant
            i <= flags.len(),
            forall|j: int| 0 <= j < i ==> !flags@[j],
            first_true(flags@) matches Some(k) ==> {
                &&& 0 <= k < flags@.len()
                &&& flags@[k]
                &&& forall|j: int| 0 <= j < k ==> !flags@[j]
            },
            first_true(flags@) is None ==> forall|j: int| 0 <= j < flags@.len() ==> !flags@[j],
        decreases flags.len() - i,
    {
        if flags[i] {
            return Some(i);
        }
        i = i + 1;
    }
    None
}

/// The path and its ancestors, nearest first, as `Path::parent` gives them.
pub open spec fn ancestors(p: Seq<char>) -> Seq<Seq<char>>
    decreases p.len(),
{
    match spec_path_parent(p) {
        Some(q) => if q.len() < p.len() {
            seq![p] + ancestors(q)
        } else {
            seq![p]
        },
        None => seq![p],
    }
}

/// The places where `pyvenv.cfg` is looked for, starting from the shim's own path:
/// that path and each of its ancestors, joined with `pyvenv.cfg`, nearest first.
pub open spec fn spec_pyvenv_cfg_candidates(start: Seq<char>) -> Seq<Seq<char>> {
    ancestors(start).map_values(|a: Seq<char>| spec_path_join(a, "pyvenv.cfg"@))
}

/// Law: the first place where `pyvenv.cfg` is looked for is beside the shim's own path.
pub proof fn law_nearest_pyvenv_cfg_first(start: Seq<char>)
    ensures
        spec_pyvenv_cfg_candidates(start).len() > 0,
        spec_pyvenv_cfg_candidates(start)[0] == spec_path_join(start, "pyvenv.cfg"@),
{
    assert(ancestors(start)[0] == start);
}

/// Law: `pyvenv.cfg` is looked for beside the shim's path and then, in order, in the
/// places looked at from its parent, whether or not that parent has a root; where the
/// path has no parent, beside it alone. (`Path::parent` gives a strictly shorter path.)
pub proof fn law_pyvenv_cfg_search_climbs_parents(start: Seq<char>)
    requires
        spec_path_parent(start) matches Some(q) ==> q.len() < start.len(),
    ensures
        spec_path_parent(start) matches Some(q) ==> spec_pyvenv_cfg_candidates(start) == seq![
            spec_path_join(start, "pyvenv.cfg"@),
        ] + spec_pyvenv_cfg_candidates(q),
        spec_path_parent(start) is None ==> spec_pyvenv_cfg_candidates(start) == seq![
            spec_path_join(start, "pyvenv.cfg"@),
        ],
{
    let f = |a: Seq<char>| spec_path_join(a, "pyvenv.cfg"@);
    if let Some(q) = spec_path_parent(start) {
        assert(ancestors(start) == seq![start] + ancestors(q));
        assert((seq![start] + ancestors(q)).map_values(f) =~= seq![f(start)] + ancestors(q).map_values(f));
    } else {
        assert(seq![start].map_values(f) =~= seq![f(start)]);
    }
}

/// The places where `pyvenv.cfg` is looked for, nearest first.
pub fn pyvenv_cfg_candidates(start: &str) -> (r: Vec<String>)
    ensures
        views(r@) == spec_pyvenv_cfg_candidates(start@),
{
    let mut r: Vec<String> = Vec::new();
    let mut cur = String::from_str(start);
    let ghost done: Seq<Seq<char>> = seq![];
    loop
        invariant_except_break
            ancestors(start@) == done + ancestors(cur@),
        invariant
            views(r@) == done.map_values(|a: Seq<char>| spec_path_join(a, "pyvenv.cfg"@)),
        ensures
            ancestors(start@) == done,
            views(r@) == done.map_values(|a: Seq<char>| spec_path_join(a, "pyvenv.cfg"@)),
        decreases cur@.len(),
    {
        let candidate = path_join(cur.as_str(), "pyvenv.cfg");
        let ghost old_r = r@;
        r.push(candidate);
        proof {
            assert(views(r@) =~= views(old_r).push(spec_path_join(cur@, "pyvenv.cfg"@)));
            assert(done.push(cur@).map_values(|a: Seq<char>| spec_path_join(a, "pyvenv.cfg"@))
                =~= done.map_values(|a: Seq<char>| spec_path_join(a, "pyvenv.cfg"@)).push(
                spec_path_join(cur@, "pyvenv.cfg"@)));
        }
        match path_parent(cur.as_str()) {
            Some(q) => {
                proof {
                    assert(ancestors(cur@) == seq![cur@] + ancestors(q@));
                    assert(done + ancestors(cur@) =~= done.push(cur@) + ancestors(q@));
                    done = done.push(cur@);
                }
                cur = q;
            },
            None => {
                proof {
                    assert(ancestors(cur@) == seq![cur@]);
                    assert(done + ancestors(cur@) =~= done.push(cur@));
                    done = done.push(cur@);
                }
                break;
            },
        }
    }
    proof {
        assert(ancestors(start@) =~= done);
    }
    r
}

/// The first candidate whose flag says that it is a file; otherwise the message
/// `pyvenv.cfg not found`. `is_file[i]` tells whether `candidates[i]` is a file.
pub fn find_pyvenv_cfg(candidates: &Vec<String>, is_file: &Vec<bool>) -> (r: Result<String, String>)
    requires
        candidates.len() == is_file.len(),
    ensures
        r matches Ok(p) ==> exists|i: int| first_true(is_file@) == Some(i) && p@ == candidates@[i]@,
        r matches Err(e) ==> first_true(is_file@) is None && e@ == "pyvenv.cfg not found"@,
        r is Err <==> first_true(is_file@) is None,
{
    proof {
        lemma_first_true(is_file@);
    }
    match first_flagged(is_file) {
        Some(i) => Ok(candidates[i].clone()),
        None => Err(String::from_str("pyvenv.cfg not found")),
    }
}

/// The virtual environment's root: the directory that holds `pyvenv.cfg`.
pub open spec fn spec_venv_root(pyvenv_cfg: Seq<char>) -> Option<Seq<char>> {
    spec_path_parent(pyvenv_cfg)
}

/// The virtual environment's root for the given `pyvenv.cfg` path, the value of
/// `VIRTUAL_ENV`: the directory that holds it, or the message
/// `invalid pyvenv.cfg location` where there is none.
pub fn venv_root_of(pyvenv_cfg: &str) -> (r: Result<String, String>)
    ensures
        r matches Ok(root) ==> spec_venv_root(pyvenv_cfg@) == Some(root@),
        r matches Err(e) ==> spec_venv_root(pyvenv_cfg@) is None && e@ == "invalid pyvenv.cfg location"@,
        r is Err <==> spec_venv_root(pyvenv_cfg@) is None,
{
    match path_parent(pyvenv_cfg) {
        Some(root) => Ok(root),
        None => Err(String::from_str("invalid pyvenv.cfg location")),
    }
}

/// The views of a list of name and value pairs.
pub open spec fn pair_views(v: Seq<(String, String)>) -> Seq<(Seq<char>, Seq<char>)> {
    v.map_values(|p: (String, String)| (p.0@, p.1@))
}

/// The environment in which the shim starts the interpreter: `VIRTUAL_ENV` is the
/// environment's root, `PYTHONEXECUTABLE` the real interpreter, and `PYTHONNOUSERSITE`
/// is `1`.
pub open spec fn spec_child_environment(venv_root: Seq<char>, real_python: Seq<char>) -> Seq<(Seq<char>, Seq<char>)> {
    seq![("VIRTUAL_ENV"@, venv_root), ("PYTHONEXECUTABLE"@, real_python), ("PYTHONNOUSERSITE"@, "1"@)]
}

/// The variables, in order, that the shim sets for the interpreter it starts: always
/// `VIRTUAL_ENV` (the environment's root) and `PYTHONEXECUTABLE` (the real
/// interpreter), and `PYTHONNOUSERSITE=1`.
pub fn child_environment(venv_root: &str, real_python: &str) -> (r: Vec<(String, String)>)
    ensures
        pair_views(r@) == spec_child_environment(venv_root@, real_python@),
{
    let mut r: Vec<(String, String)> = Vec::new();
    r.push((String::from_str("VIRTUAL_ENV"), String::from_str(venv_root)));
    r.push((String::from_str("PYTHONEXECUTABLE"), String::from_str(real_python)));
    r.push((String::from_str("PYTHONNOUSERSITE"), String::from_str("1")));
    assert(pair_views(r@) =~= spec_child_environment(venv_root@, real_python@));
    r
}

/// The settings that the shim reads from `pyvenv.cfg`.
pub struct ShimSettings {
    /// The interpreter's path inside its runfiles repository.
    pub interpreter_rloc: String,
    /// The runfiles repository that holds the interpreter.
    pub repo: String,
}

/// The shim's settings: `aspect-runfiles-interpreter` and `aspect-runfiles-repo`,
/// each of which must be set; the first one missing is reported.
pub fn shim_settings(cfg: &PyvenvCfg) -> (r: Result<ShimSettings, String>)
    ensures
        !cfg@.contains_key("aspect-runfiles-interpreter"@) ==> (r matches Err(e)
            && e@ == "missing aspect-runfiles-interpreter in pyvenv.cfg"@),
        cfg@.contains_key("aspect-runfiles-interpreter"@) && !cfg@.contains_key("aspect-runfiles-repo"@)
            ==> (r matches Err(e) && e@ == "missing aspect-runfiles-repo in pyvenv.cfg"@),
        cfg@.contains_key("aspect-runfiles-interpreter"@) && cfg@.contains_key("aspect-runfiles-repo"@)
            ==> (r matches Ok(s) && s.interpreter_rloc@ == cfg@["aspect-runfiles-interpreter"@]
            && s.repo@ == cfg@["aspect-runfiles-repo"@]),
{
    let interpreter_rloc = match cfg.get("aspect-runfiles-interpreter") {
        Some(v) => v,
        None => {
            return Err(String::from_str("missing aspect-runfiles-interpreter in pyvenv.cfg"));
        },
    };
    let repo = match cfg.get("aspect-runfiles-repo") {
        Some(v) => v,
        None => {
            return Err(String::from_str("missing aspect-runfiles-repo in pyvenv.cfg"));
        },
    };
    Ok(ShimSettings { interpreter_rloc, repo })
}

/// The fields of a line of a runfiles manifest, split at its first two spaces: the
/// runfiles path, then the second field (if there is a space), then the rest (if there
/// is a second space).
pub open spec fn manifest_fields(line: Seq<char>) -> (Seq<char>, Option<Seq<char>>, Option<Seq<char>>) {
    match char_index(line, ' ') {
        None => (line, None, None),
        Some(a) => {
            let rest = line.skip(a + 1);
            match char_index(rest, ' ') {
                None => (line.take(a), Some(rest), None),
                Some(b) => (line.take(a), Some(rest.take(b)), Some(rest.skip(b + 1))),
            }
        },
    }
}

/// Whether a field is one of the flags `0` and `1`.
pub open spec fn is_flag_field(f: Seq<char>) -> bool {
    f == "0"@ || f == "1"@
}

/// The local path that a manifest line gives: its second field, unless that is a flag
/// `0` or `1`, in which case the field after it; none where that field is missing.
pub open spec fn manifest_local_path(line: Seq<char>) -> Option<Seq<char>> {
    match manifest_fields(line).1 {
        Some(f) => if !is_flag_field(f) {
            Some(f)
        } else {
            manifest_fields(line).2
        },
        None => None,
    }
}

/// What a runfiles manifest resolves `target` to: the local path of the first line whose
/// runfiles path is `target`. The search gives up, with nothing, at the first line that
/// has no local path.
pub open spec fn resolve_in_manifest(lines: Seq<Seq<char>>, target: Seq<char>) -> Option<Seq<char>>
    decreases lines.len(),
{
    if lines.len() == 0 {
        None
    } else {
        match manifest_local_path(lines[0]) {
            None => None,
            Some(local) => if manifest_fields(lines[0]).0 == target {
                Some(local)
            } else {
                resolve_in_manifest(lines.drop_first(), target)
            },
        }
    }
}

/// The runfiles path of a manifest line and the local path that it gives, or nothing
/// where the line gives no local path.
pub fn manifest_line_entry(line: &str) -> (r: Option<(String, String)>)
    ensures
        r matches Some((rp, lp)) ==> manifest_local_path(line@) == Some(lp@)
            && manifest_fields(line@).0 == rp@,
        r is None ==> manifest_local_path(line@) is None,
{
    let chars = chars_of(line);
    let n = chars.len();
    proof {
        lemma_char_index(line@, ' ');
        assert(chars@.skip(0) =~= chars@);
    }
    let a = match find_char_from(&chars, ' ', 0) {
        Some(a) => a,
        None => {
            return None;
        },
    };
    assert(char_index(line@, ' ') == Some(a as int));
    let ghost rest = line@.skip(a + 1);
    assert(chars@.skip(a + 1) =~= rest);
    proof {
        lemma_char_index(rest, ' ');
    }
    let runfiles_path = substring(line, 0, a);
    assert(line@.subrange(0, a as int) =~= line@.take(a as int));
    let b = find_char_from(&chars, ' ', a + 1);
    let second = match b {
        Some(b) => {
            assert(char_index(rest, ' ') == Some(b - (a + 1)));
            assert(line@.subrange(a + 1, b as int) =~= rest.take(b - (a + 1)));
            substring(line, a + 1, b)
        },
        None => {
            assert(line@.subrange(a + 1, n as int) =~= rest);
            substring(line, a + 1, n)
        },
    };
    if !str_eq(second.as_str(), "0") && !str_eq(second.as_str(), "1") {
        return Some((runfiles_path, second));
    }
    match b {
        Some(b) => {
            assert(line@.subrange(b + 1, n as int) =~= rest.skip(b - (a + 1) + 1));
            Some((runfiles_path, substring(line, b + 1, n)))
        },
        None => None,
    }
}

/// Law: a manifest line `<runfiles path> <local path>` resolves the runfiles path to the
/// local path, where neither holds a space and the local path is not a flag `0` or `1`.
pub proof fn law_manifest_line_round_trip(runfiles_path: Seq<char>, local: Seq<char>)
    requires
        forall|j: int| 0 <= j < runfiles_path.len() ==> runfiles_path[j] != ' ',
        forall|j: int| 0 <= j < local.len() ==> local[j] != ' ',
        !is_flag_field(local),
    ensures
        manifest_fields(runfiles_path + seq![' '] + local) == (runfiles_path, Some(local), None::<Seq<char>>),
        resolve_in_manifest(seq![runfiles_path + seq![' '] + local], runfiles_path) == Some(local),
{
    let line = runfiles_path + seq![' '] + local;
    lemma_char_index_append(runfiles_path, seq![' '] + local, ' ');
    assert((seq![' '] + local)[0] == ' ');
    assert(char_index(seq![' '] + local, ' ') == Some(0int));
    assert(line =~= runfiles_path + (seq![' '] + local));
    assert(char_index(line, ' ') == Some(runfiles_path.len() as int));
    assert(line.skip(runfiles_path.len() as int + 1) =~= local);
    assert(line.take(runfiles_path.len() as int) =~= runfiles_path);
    lemma_char_index(local, ' ');
    let lines = seq![line];
    assert(lines[0] == line);
}

/// The runfiles path of the interpreter: `repo/interpreter_rloc`.
pub open spec fn runfiles_target(repo: Seq<char>, interpreter_rloc: Seq<char>) -> Seq<char> {
    repo + "/"@ + interpreter_rloc
}

/// Resolves `repo/interpreter_rloc` through the lines of a runfiles manifest: the local
/// path of the first line whose runfiles path matches, as `resolve_in_manifest` says.
pub fn resolve_from_manifest(lines: &Vec<String>, repo: &str, interpreter_rloc: &str) -> (r:
    Option<String>)
    ensures
        r matches Some(p) ==> resolve_in_manifest(views(lines@), runfiles_target(repo@, interpreter_rloc@))
            == Some(p@),
        r is None ==> resolve_in_manifest(views(lines@), runfiles_target(repo@, interpreter_rloc@)) is None,
{
    let target = String::from_str(repo).concat("/").concat(interpreter_rloc);
    let ghost t = runfiles_target(repo@, interpreter_rloc@);
    assert(target@ == t);
    let mut i: usize = 0;
    assert(views(lines@).skip(0) =~= views(lines@));
    while i < lines.len()
        invariant
            i <= lines.len(),
            target@ == t,
            t == runfiles_target(repo@, interpreter_rloc@),
            resolve_in_manifest(views(lines@), t) == resolve_in_manifest(views(lines@).skip(i as int), t),
        decreases lines.len() - i,
    {
        let ghost rest = views(lines@).skip(i as int);
        assert(rest[0] == lines@[i as int]@);
        assert(rest.drop_first() =~= views(lines@).skip(i + 1));
        assert(rest.len() > 0);
        match manifest_line_entry(lines[i].as_str()) {
            None => {
                assert(manifest_local_path(rest[0]) is None);
                assert(resolve_in_manifest(rest, t) is None);
                return None;
            },
            Some((runfiles_path, local_path)) => {
                if runfiles_path.eq(&target) {
                    assert(manifest_fields(rest[0]).0 == t);
                    assert(resolve_in_manifest(rest, t) == Some(local_path@));
                    return Some(local_path);
                }
                assert(manifest_fields(rest[0]).0 != t);
                assert(resolve_in_manifest(rest, t) == resolve_in_manifest(rest.drop_first(), t));
            },
        }
        i = i + 1;
    }
    None
}

/// The view of an optional string.
pub open spec fn opt_view(o: Option<String>) -> Option<Seq<char>> {
    match o {
        Some(s) => Some(s@),
        None => None,
    }
}

/// The views of optional lines.
pub open spec fn opt_views(o: Option<Vec<String>>) -> Option<Seq<Seq<char>>> {
    match o {
        Some(ls) => Some(views(ls@)),
        None => None,
    }
}

/// A one-element sequence for `Some`, an empty one for `None`.
pub open spec fn opt_seq(o: Option<Seq<char>>) -> Seq<Seq<char>> {
    match o {
        Some(x) => seq![x],
        None => seq![],
    }
}

/// The interpreter under the runfiles directory `RUNFILES_DIR`, where that is set.
pub open spec fn runfiles_dir_candidate(runfiles_dir: Option<Seq<char>>, repo: Seq<char>, rloc: Seq<char>)
    -> Option<Seq<char>> {
    match runfiles_dir {
        Some(d) => Some(spec_path_join(spec_path_join(d, repo), rloc)),
        None => None,
    }
}

/// The interpreter that the runfiles manifest `RUNFILES_MANIFEST_FILE` names, where it
/// was read and names it.
pub open spec fn manifest_candidate(manifest: Option<Seq<Seq<char>>>, repo: Seq<char>, rloc: Seq<char>)
    -> Option<Seq<char>> {
    match manifest {
        Some(lines) => resolve_in_manifest(lines, runfiles_target(repo, rloc)),
        None => None,
    }
}

/// The interpreter under the `<exe name>.runfiles` directory beside the shim.
pub open spec fn sibling_candidate(exe: Seq<char>, repo: Seq<char>, rloc: Seq<char>) -> Option<Seq<char>> {
    match spec_path_file_name(exe) {
        Some(name) => match spec_path_parent(exe) {
            Some(dir) => Some(
                spec_path_join(spec_path_join(spec_path_join(dir, name + ".runfiles"@), repo), rloc),
            ),
            None => None,
        },
        None => None,
    }
}

/// The absolute interpreter path `aspect-absolute-interpreter` of `pyvenv.cfg`, if set.
pub open spec fn absolute_candidate(cfg: Map<Seq<char>, Seq<char>>) -> Option<Seq<char>> {
    if cfg.contains_key("aspect-absolute-interpreter"@) {
        Some(cfg["aspect-absolute-interpreter"@])
    } else {
        None
    }
}

/// The places where the real interpreter is looked for, in the order in which they are
/// tried: under `RUNFILES_DIR`, through `RUNFILES_MANIFEST_FILE`, under the sibling
/// `.runfiles` directory, and at the absolute path recorded in `pyvenv.cfg`.
pub open spec fn spec_interpreter_candidates(
    exe: Seq<char>,
    cfg: Map<Seq<char>, Seq<char>>,
    repo: Seq<char>,
    rloc: Seq<char>,
    runfiles_dir: Option<Seq<char>>,
    manifest: Option<Seq<Seq<char>>>,
) -> Seq<Seq<char>> {
    opt_seq(runfiles_dir_candidate(runfiles_dir, repo, rloc)) + opt_seq(
        manifest_candidate(manifest, repo, rloc),
    ) + opt_seq(sibling_candidate(exe, repo, rloc)) + opt_seq(absolute_candidate(cfg))
}

fn push_opt(v: &mut Vec<String>, o: Option<String>)
    ensures
        views(final(v)@) == views(old(v)@) + opt_seq(opt_view(o)),
{
    let ghost before = views(v@);
    match o {
        Some(x) => {
            v.push(x);
            assert(views(v@) =~= before + opt_seq(opt_view(Some(x))));
        },
        None => {
            assert(views(v@) =~= before + opt_seq(opt_view(None::<String>)));
        },
    }
}

/// The places where the shim looks for the real interpreter, in order: under the
/// runfiles directory (`runfiles_dir`, the value of `RUNFILES_DIR`), through the runfiles
/// manifest (`manifest_lines`, the lines of `RUNFILES_MANIFEST_FILE`), under the
/// `.runfiles` directory beside the shim at `exe_path`, and at the absolute path that
/// `pyvenv.cfg` records.
pub fn interpreter_candidates(
    exe_path: &str,
    cfg: &PyvenvCfg,
    settings: &ShimSettings,
    runfiles_dir: &Option<String>,
    manifest_lines: &Option<Vec<String>>,
) -> (r: Vec<String>)
    ensures
        views(r@) == spec_interpreter_candidates(
            exe_path@,
            cfg@,
            settings.repo@,
            settings.interpreter_rloc@,
            opt_view(*runfiles_dir),
            opt_views(*manifest_lines),
        ),
{
    let repo = settings.repo.as_str();
    let rloc = settings.interpreter_rloc.as_str();
    let mut r: Vec<String> = Vec::new();
    assert(views(r@) =~= Seq::<Seq<char>>::empty());

    let from_dir = match runfiles_dir {
        Some(d) => Some(path_join(path_join(d.as_str(), repo).as_str(), rloc)),
        None => None,
    };
    assert(opt_view(from_dir) == runfiles_dir_candidate(opt_view(*runfiles_dir), repo@, rloc@));
    push_opt(&mut r, from_dir);

    let from_manifest = match manifest_lines {
        Some(lines) => resolve_from_manifest(lines, repo, rloc),
        None => None,
    };
    assert(opt_view(from_manifest) == manifest_candidate(opt_views(*manifest_lines), repo@, rloc@));
    push_opt(&mut r, from_manifest);

    let from_sibling = match path_file_name(exe_path) {
        Some(name) => match path_parent(exe_path) {
            Some(dir) => {
                let sibling_name = name.concat(".runfiles");
                let sibling = path_join(dir.as_str(), sibling_name.as_str());
                Some(path_join(path_join(sibling.as_str(), repo).as_str(), rloc))
            },
            None => None,
        },
        None => None,
    };
    assert(opt_view(from_sibling) == sibling_candidate(exe_path@, repo@, rloc@));
    push_opt(&mut r, from_sibling);

    let absolute = cfg.get("aspect-absolute-interpreter");
    assert(opt_view(absolute) == absolute_candidate(cfg@));
    push_opt(&mut r, absolute);
    r
}

/// The first candidate that exists (`exists[i]` tells whether `candidates[i]` does);
/// where none does, the message `could not resolve interpreter <rloc> for repo <repo>`.
pub fn resolve_interpreter(candidates: &Vec<String>, exists: &Vec<bool>, settings: &ShimSettings) -> (r:
    Result<String, String>)
    requires
        candidates.len() == exists.len(),
    ensures
        r matches Ok(p) ==> exists|i: int| first_true(exists@) == Some(i) && p@ == candidates@[i]@,
        r matches Err(e) ==> e@ == "could not resolve interpreter "@ + settings.interpreter_rloc@
            + " for repo "@ + settings.repo@,
        r is Err <==> first_true(exists@) is None,
{
    proof {
        lemma_first_true(exists@);
    }
    match first_flagged(exists) {
        Some(i) => Ok(candidates[i].clone()),
        None => Err(
            String::from_str("could not resolve interpreter ").concat(
                settings.interpreter_rloc.as_str(),
            ).concat(" for repo ").concat(settings.repo.as_str()),
        ),
    }
}

/// Law: the interpreter under `RUNFILES_DIR`, where that is set and the interpreter
/// exists there, is the one chosen, whatever the other places hold.
pub proof fn law_runfiles_dir_comes_first(
    exe: Seq<char>,
    cfg: Map<Seq<char>, Seq<char>>,
    repo: Seq<char>,
    rloc: Seq<char>,
    runfiles_dir: Seq<char>,
    manifest: Option<Seq<Seq<char>>>,
    exists: Seq<bool>,
)
    requires
        exists.len() == spec_interpreter_candidates(exe, cfg, repo, rloc, Some(runfiles_dir), manifest).len(),
        exists.len() > 0 && exists[0],
    ensures
        first_true(exists) == Some(0int),
        spec_interpreter_candidates(exe, cfg, repo, rloc, Some(runfiles_dir), manifest)[0]
            == spec_path_join(spec_path_join(runfiles_dir, repo), rloc),
{
}

/// Law: the absolute path recorded in `pyvenv.cfg`, where there is one, is the last
/// place tried.
pub proof fn law_absolute_path_is_last_resort(
    exe: Seq<char>,
    cfg: Map<Seq<char>, Seq<char>>,
    repo: Seq<char>,
    rloc: Seq<char>,
    runfiles_dir: Option<Seq<char>>,
    manifest: Option<Seq<Seq<char>>>,
)
    requires
        cfg.contains_key("aspect-absolute-interpreter"@),
    ensures
        ({
            let c = spec_interpreter_candidates(exe, cfg, repo, rloc, runfiles_dir, manifest);
            c.len() > 0 && c.last() == cfg["aspect-absolute-interpreter"@]
        }),
{
}

/// Law: the interpreter is looked for in this order, each place at most once: under
/// `RUNFILES_DIR` at `<dir>/<repo>/<rloc>`, at the local path that the manifest gives for
/// `<repo>/<rloc>`, under the sibling `<dir of shim>/<shim name>.runfiles/<repo>/<rloc>`,
/// and at the absolute path recorded in `pyvenv.cfg`.
pub proof fn law_interpreter_search_order(
    exe: Seq<char>,
    cfg: Map<Seq<char>, Seq<char>>,
    repo: Seq<char>,
    rloc: Seq<char>,
    runfiles_dir: Seq<char>,
    local: Seq<char>,
    name: Seq<char>,
    dir: Seq<char>,
)
    requires
        forall|j: int| 0 <= j < runfiles_target(repo, rloc).len() ==> runfiles_target(repo, rloc)[j] != ' ',
        forall|j: int| 0 <= j < local.len() ==> local[j] != ' ',
        !is_flag_field(local),
        spec_path_file_name(exe) == Some(name),
        spec_path_parent(exe) == Some(dir),
        cfg.contains_key("aspect-absolute-interpreter"@),
    ensures
        spec_interpreter_candidates(
            exe,
            cfg,
            repo,
            rloc,
            Some(runfiles_dir),
            Some(seq![repo + "/"@ + rloc + seq![' '] + local]),
        ) == seq![
            spec_path_join(spec_path_join(runfiles_dir, repo), rloc),
            local,
            spec_path_join(spec_path_join(spec_path_join(dir, name + ".runfiles"@), repo), rloc),
            cfg["aspect-absolute-interpreter"@],
        ],
{
    law_manifest_line_round_trip(runfiles_target(repo, rloc), local);
    let c = spec_interpreter_candidates(
        exe,
        cfg,
        repo,
        rloc,
        Some(runfiles_dir),
        Some(seq![repo + "/"@ + rloc + seq![' '] + local]),
    );
    assert(c =~= seq![
        spec_path_join(spec_path_join(runfiles_dir, repo), rloc),
        local,
        spec_path_join(spec_path_join(spec_path_join(dir, name + ".runfiles"@), repo), rloc),
        cfg["aspect-absolute-interpreter"@],
    ]);
}

} // verus!
