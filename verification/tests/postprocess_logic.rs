use uv_bazel::manifest::{BazelPopulationStrategy, BazelPthManifest, BazelSiteEntry};
use uv_bazel::populate::{
    can_coalesce_directory, checked_plan_symlinks, is_namespace_package, plan_copies,
    relative_to, FsAction, PlanStop, SourceChild, WalkEntry, WalkListing,
};
use uv_bazel::postprocess::{
    bazel_pyvenv_settings, entry_action, plan_postprocess, plan_entries, pth_file_contents, pth_file_path,
    interpreter_rloc, pth_line, pth_lines, pythonw_path, resolve_runfiles_root, runfiles_sibling, shim_destinations, EntryAction,
};
use uv_bazel::pyvenv_cfg::parse_pyvenv_cfg;
use uv_bazel::shim::shim_settings;
use uv_bazel::target::{interpreter_target_triple, select_shim};

fn entry(repo: &str, path: &str, strategy: BazelPopulationStrategy) -> BazelSiteEntry {
    BazelSiteEntry { repo: repo.to_string(), path: path.to_string(), strategy }
}

fn walk(entries: &[(&str, bool)], failed: bool) -> WalkListing {
    WalkListing {
        entries: entries
            .iter()
            .map(|(p, d)| WalkEntry { path: p.to_string(), is_dir: *d, is_file: !*d })
            .collect(),
        failed,
    }
}

#[test]
fn bazel_runfiles_creates_venv_and_pth() {
    let entries = vec![
        entry("whl_install__requests", "install/lib/python3.12/site-packages", BazelPopulationStrategy::Pth),
        entry("_main", "libs/adminactions", BazelPopulationStrategy::Pth),
    ];
    let lines = pth_lines(&entries);
    let contents = pth_file_contents(&lines).unwrap();
    assert!(contents.contains("../../whl_install__requests/install/lib/python3.12/site-packages"));
    assert!(contents.contains("../../_main/libs/adminactions"));
    assert_eq!(
        contents,
        "../../whl_install__requests/install/lib/python3.12/site-packages\n../../_main/libs/adminactions\n"
    );
    assert_eq!(
        pth_file_path("/v/lib/python3.12/site-packages"),
        "/v/lib/python3.12/site-packages/_bazel.pth"
    );
    let settings = bazel_pyvenv_settings("/usr/bin/python3.12", &None, &None);
    let keys: Vec<&str> = settings.iter().map(|(k, _)| k.as_str()).collect();
    assert_eq!(
        keys,
        vec!["aspect-runfiles-interpreter", "aspect-runfiles-repo", "aspect-absolute-interpreter"]
    );
    assert_eq!(settings[1].1, "_main");
    assert_eq!(settings[0].1, "/usr/bin/python3.12");
    assert_eq!(settings[2].1, "/usr/bin/python3.12");
}

#[test]
fn bazel_runfiles_shim_replaces_python() {
    assert_eq!(shim_destinations("/v/bin", false, false), vec!["/v/bin/python".to_string()]);
    assert_eq!(shim_destinations("/v/bin", false, true), vec!["/v/bin/python".to_string()]);
    assert_eq!(
        shim_destinations("/v/Scripts", true, true),
        vec!["/v/Scripts/python.exe".to_string(), "/v/Scripts/pythonw.exe".to_string()]
    );
    assert_eq!(shim_destinations("/v/Scripts", true, false), vec!["/v/Scripts/python.exe".to_string()]);
    assert_eq!(pythonw_path("/v/Scripts"), "/v/Scripts/pythonw.exe");
}

#[test]
fn bazel_runfiles_shim_bytes_installed() {
    let triple = interpreter_target_triple("linux", "x86_64", "gnu");
    assert_eq!(triple.as_deref(), Some("x86_64-unknown-linux-gnu"));
    let available = vec!["aarch64-apple-darwin".to_string(), "x86_64-unknown-linux-gnu".to_string()];
    assert_eq!(select_shim(&triple, &available), Ok(1));
}

#[test]
fn workspace_repo_comes_from_environment() {
    let settings = bazel_pyvenv_settings("/py", &None, &Some("my_ws".to_string()));
    assert_eq!(settings[1], ("aspect-runfiles-repo".to_string(), "my_ws".to_string()));
}

#[test]
fn no_pth_file_without_pth_entries() {
    let entries = vec![entry("r", "p", BazelPopulationStrategy::Copy)];
    let lines = pth_lines(&entries);
    assert!(lines.is_empty());
    assert_eq!(pth_file_contents(&lines), None);
}

#[test]
fn target_triples_for_each_platform() {
    let t = |o, a, l| interpreter_target_triple(o, a, l);
    assert_eq!(t("macos", "aarch64", "none").as_deref(), Some("aarch64-apple-darwin"));
    assert_eq!(t("macos", "x86_64", "none").as_deref(), Some("x86_64-apple-darwin"));
    assert_eq!(t("linux", "aarch64", "gnu").as_deref(), Some("aarch64-unknown-linux-gnu"));
    assert_eq!(t("linux", "aarch64", "musl").as_deref(), Some("aarch64-unknown-linux-musl"));
    assert_eq!(t("linux", "x86_64", "gnu").as_deref(), Some("x86_64-unknown-linux-gnu"));
    assert_eq!(t("linux", "x86_64", "musl").as_deref(), Some("x86_64-unknown-linux-musl"));
    assert_eq!(t("windows", "x86_64", "gnu").as_deref(), Some("x86_64-pc-windows-gnu"));
    assert_eq!(t("windows", "x86_64", "none").as_deref(), Some("x86_64-pc-windows-msvc"));
    assert_eq!(t("macos", "aarch64", "gnu"), None);
    assert_eq!(t("linux", "riscv64", "gnu"), None);
    assert_eq!(t("windows", "aarch64", "none"), None);
}

#[test]
fn missing_shim_is_reported() {
    let msg = select_shim(&None, &vec!["x".to_string()]).unwrap_err();
    assert_eq!(
        msg,
        "No Bazel shim available for target unknown. Run `cargo build -p uv-bazel-shim --release --target <triple>` and copy the binary to crates/uv/src/commands/venv/shims/"
    );
    let msg = select_shim(&Some("riscv".to_string()), &vec!["x".to_string()]).unwrap_err();
    assert!(msg.starts_with("No Bazel shim available for target riscv. Run"));
}

#[test]
fn runfiles_root_prefers_environment() {
    assert_eq!(runfiles_sibling("/w/.venv"), Some("/w/.venv.runfiles".to_string()));
    assert_eq!(runfiles_sibling("/"), None);
    assert_eq!(
        resolve_runfiles_root("/w/.venv", &Some("/rf".to_string()), true),
        Some("/rf".to_string())
    );
    assert_eq!(resolve_runfiles_root("/w/.venv", &None, true), Some("/w/.venv.runfiles".to_string()));
    assert_eq!(resolve_runfiles_root("/w/.venv", &None, false), None);
}

#[test]
fn entry_actions_by_strategy() {
    let root = Some("/rf".to_string());
    let site = "/v/site";
    match entry_action(&entry("r", "a/b", BazelPopulationStrategy::Pth), &root, site) {
        EntryAction::PthLine(l) => assert_eq!(l, "../../r/a/b"),
        _ => panic!("expected a pth line"),
    }
    match entry_action(&entry("r", "a/b", BazelPopulationStrategy::Symlink), &root, site) {
        EntryAction::Symlinks { source } => assert_eq!(source, "/rf/r/a/b"),
        _ => panic!("expected links"),
    }
    match entry_action(&entry("r", "a/b", BazelPopulationStrategy::Symlink), &None, site) {
        EntryAction::DanglingSymlink { target, link } => {
            assert_eq!(target, "../../r/a/b");
            assert_eq!(link, "/v/site/b");
        }
        _ => panic!("expected a dangling link"),
    }
    match entry_action(&entry("r", "", BazelPopulationStrategy::Symlink), &None, site) {
        EntryAction::DanglingSymlink { link, .. } => assert_eq!(link, "/v/site/r"),
        _ => panic!("expected a dangling link"),
    }
    match entry_action(&entry("r", "a", BazelPopulationStrategy::Copy), &root, site) {
        EntryAction::Copies { source } => assert_eq!(source, "/rf/r/a"),
        _ => panic!("expected copies"),
    }
    assert!(matches!(
        entry_action(&entry("r", "a", BazelPopulationStrategy::Copy), &None, site),
        EntryAction::Skip
    ));
    assert_eq!(plan_entries(&vec![], &root, site).len(), 0);
    assert_eq!(pth_line("r", "p"), "../../r/p");
}

#[test]
fn namespace_packages() {
    for n in ["google", "zope", "azure", "botocore"] {
        assert!(is_namespace_package(n));
    }
    assert!(!is_namespace_package("googleapis"));
    assert!(!is_namespace_package(""));
}

#[test]
fn coalescing_rules() {
    let plain = walk(&[("/s/pkg", true), ("/s/pkg/__init__.py", false)], false);
    assert!(can_coalesce_directory("/s/pkg", &plain));
    let native = walk(&[("/s/pkg", true), ("/s/pkg/_x.cpython.so", false)], false);
    assert!(!can_coalesce_directory("/s/pkg", &native));
    let dylib = walk(&[("/s/pkg", true), ("/s/pkg/lib.dylib", false)], false);
    assert!(!can_coalesce_directory("/s/pkg", &dylib));
    let pyd = walk(&[("/s/pkg", true), ("/s/pkg/m.pyd", false)], false);
    assert!(!can_coalesce_directory("/s/pkg", &pyd));
    let failed = walk(&[("/s/pkg", true)], true);
    assert!(!can_coalesce_directory("/s/pkg", &failed));
    let ns = walk(&[("/s/google", true)], false);
    assert!(!can_coalesce_directory("/s/google", &ns));
    let dir_named_so = walk(&[("/s/pkg", true), ("/s/pkg/x.so", true)], false);
    assert!(can_coalesce_directory("/s/pkg", &dir_named_so));
}

#[test]
fn relative_paths() {
    assert_eq!(relative_to("/a/b/c", "/a/x").unwrap(), "../b/c");
    assert_eq!(relative_to("/rf/r/pkg", "/v/lib/site").unwrap(), "../../../rf/r/pkg");
    assert_eq!(relative_to("/a/b", "/a").unwrap(), "b");
    assert_eq!(relative_to("a/b", "c").unwrap(), "../a/b");
    assert_eq!(relative_to("/x", "rel/dir").unwrap(), "/x");
    assert_eq!(relative_to("rel", "/abs").unwrap_err(), "Trivial strip failed: rel vs. /abs");
}

#[test]
fn copy_plan_mirrors_tree() {
    let w = walk(&[("/rf/r/p", true), ("/rf/r/p/m", true), ("/rf/r/p/m/a.py", false)], true);
    let plan = plan_copies("/site", "/rf/r/p", true, &w);
    let got: Vec<String> = plan
        .actions
        .iter()
        .map(|a| match a {
            FsAction::CreateDirAll(d) => format!("mkdir {d}"),
            FsAction::Copy { from, to } => format!("copy {from} {to}"),
            _ => "other".to_string(),
        })
        .collect();
    assert_eq!(
        got,
        vec![
            "mkdir /site/".to_string(),
            "mkdir /site/m".to_string(),
            "mkdir /site/m".to_string(),
            "copy /rf/r/p/m/a.py /site/m/a.py".to_string(),
        ]
    );
    assert!(matches!(plan.stop, Some(PlanStop::SourceWalkFailed)));
    let none = plan_copies("/site", "/missing", false, &walk(&[], false));
    assert!(none.actions.is_empty() && none.stop.is_none());
}

#[test]
fn symlink_plan_links_whole_dirs_and_native_files() {
    let children = vec![
        SourceChild {
            path: "/rf/r/p/pure".to_string(),
            is_dir: true,
            walk: walk(&[("/rf/r/p/pure", true), ("/rf/r/p/pure/a.py", false)], false),
        },
        SourceChild {
            path: "/rf/r/p/native".to_string(),
            is_dir: true,
            walk: walk(&[("/rf/r/p/native", true), ("/rf/r/p/native/m.so", false)], false),
        },
        SourceChild { path: "/rf/r/p/mod.py".to_string(), is_dir: false, walk: walk(&[], false) },
    ];
    let plan = checked_plan_symlinks("/v/site", "/rf/r/p", true, &children, false).unwrap();
    let got: Vec<String> = plan
        .actions
        .iter()
        .map(|a| match a {
            FsAction::CreateDirAll(d) => format!("mkdir {d}"),
            FsAction::ReplaceSymlink { target, link } => format!("link {link} -> {target}"),
            FsAction::Symlink { target, link } => format!("plain {link} -> {target}"),
            FsAction::Copy { .. } => "copy".to_string(),
        })
        .collect();
    assert_eq!(
        got,
        vec![
            "link /v/site/pure -> ../../rf/r/p/pure".to_string(),
            "mkdir /v/site/native/".to_string(),
            "mkdir /v/site/native".to_string(),
            "link /v/site/native/m.so -> ../../../rf/r/p/native/m.so".to_string(),
            "link /v/site/mod.py -> ../../rf/r/p/mod.py".to_string(),
        ]
    );
    assert!(plan.stop.is_none());
}

#[test]
fn symlink_plan_for_missing_source_and_failures() {
    let plan = checked_plan_symlinks("/v/site", "/rf/r/gone", false, &vec![], false).unwrap();
    match &plan.actions[..] {
        [FsAction::Symlink { target, link }] => {
            assert_eq!(target, "../../rf/r/gone");
            assert_eq!(link, "/v/site/gone");
        }
        _ => panic!("expected one plain link"),
    }
    let plan = checked_plan_symlinks("/v/site", "rel/gone", false, &vec![], false).unwrap();
    assert!(plan.stop.is_none());
    match &plan.actions[..] {
        [FsAction::Symlink { target, link }] => {
            assert_eq!(target, "rel/gone");
            assert_eq!(link, "/v/site/gone");
        }
        _ => panic!("expected one plain link to the source as given"),
    }
    let children = vec![SourceChild {
        path: "/rf/google".to_string(),
        is_dir: true,
        walk: walk(&[("/rf/google", true)], true),
    }];
    let plan = checked_plan_symlinks("/v/site", "/rf", true, &children, true).unwrap();
    assert!(matches!(plan.stop, Some(PlanStop::ChildWalkFailed(0))));
    let plan = checked_plan_symlinks("/v/site", "/rf", true, &vec![], true).unwrap();
    assert!(matches!(plan.stop, Some(PlanStop::ListingFailed)));
    let children = vec![SourceChild { path: "rel/x".to_string(), is_dir: false, walk: walk(&[], false) }];
    let plan = checked_plan_symlinks("/v/site", "rel", true, &children, false).unwrap();
    match plan.stop {
        Some(PlanStop::RelativePathFailed(m)) => assert_eq!(m, "Trivial strip failed: rel/x vs. /v/site"),
        _ => panic!("expected a relative path failure"),
    }
}

#[test]
fn recorded_settings_reach_shim() {
    let mut lines = vec!["home = /usr/bin".to_string(), "aspect-runfiles-repo = stale".to_string()];
    for (k, v) in bazel_pyvenv_settings("/rf/ws/py/bin/python3", &Some("/rf".to_string()), &Some("ws".to_string())) {
        lines.push(format!("{k} = {v}"));
    }
    let cfg = parse_pyvenv_cfg(&lines);
    let s = shim_settings(&cfg).unwrap();
    assert_eq!(s.interpreter_rloc, "py/bin/python3");
    assert_eq!(s.repo, "ws");
    assert_eq!(cfg.get("aspect-absolute-interpreter"), Some("/rf/ws/py/bin/python3".to_string()));
}

#[test]
fn pth_text_reads_back_line_by_line() {
    let lines = vec!["../../a/x".to_string(), "../../b/y".to_string(), String::new()];
    let text = pth_file_contents(&lines).unwrap();
    let read: Vec<String> = text.lines().map(|l| l.to_string()).collect();
    assert_eq!(read, lines);
}

#[test]
fn postprocess_plan_end_to_end() {
    let manifest = BazelPthManifest {
        repository: "pypi".to_string(),
        python_version: "3.12".to_string(),
        entries: vec![
            entry("whl_install__requests", "install/lib/python3.12/site-packages", BazelPopulationStrategy::Pth),
            entry("whl_install__numpy", "install/lib/python3.12/site-packages", BazelPopulationStrategy::Symlink),
        ],
    };
    let plan = plan_postprocess(
        &manifest,
        "/usr/bin/python3.12",
        &None,
        "/v/lib/python3.12/site-packages",
        &Some("/rf".to_string()),
        "linux",
        "aarch64",
        "gnu",
        &vec!["x86_64-unknown-linux-gnu".to_string(), "aarch64-unknown-linux-gnu".to_string()],
        "/v/bin",
        false,
        false,
    );
    assert_eq!(plan.settings.len(), 3);
    assert_eq!(plan.entry_actions.len(), 2);
    match &plan.entry_actions[1] {
        EntryAction::Symlinks { source } => {
            assert_eq!(source, "/rf/whl_install__numpy/install/lib/python3.12/site-packages")
        }
        _ => panic!("expected links"),
    }
    let (path, text) = plan.pth_file.unwrap();
    assert_eq!(path, "/v/lib/python3.12/site-packages/_bazel.pth");
    assert_eq!(text, "../../whl_install__requests/install/lib/python3.12/site-packages\n");
    assert_eq!(plan.shim, Ok(1));
    assert_eq!(plan.shim_destinations, vec!["/v/bin/python".to_string()]);
}

#[test]
fn interpreter_runfiles_path() {
    let root = Some("/rf".to_string());
    assert_eq!(
        interpreter_rloc("/rf/_main/python3.12/bin/python3.12", &root, "_main"),
        "python3.12/bin/python3.12"
    );
    assert_eq!(
        interpreter_rloc("/rf/python_x86/bin/python3", &root, "_main"),
        "../python_x86/bin/python3"
    );
    assert_eq!(interpreter_rloc("/usr/bin/python3", &root, "_main"), "/usr/bin/python3");
    assert_eq!(interpreter_rloc("/usr/bin/python3", &None, "_main"), "/usr/bin/python3");
    let settings = bazel_pyvenv_settings("/rf/_main/py/bin/python", &root, &None);
    assert_eq!(settings[0].1, "py/bin/python");
    assert_eq!(settings[2].1, "/rf/_main/py/bin/python");
}
