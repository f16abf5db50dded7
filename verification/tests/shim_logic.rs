use uv_bazel::command_line::{wide_nul_terminated, windows_command_line};
use uv_bazel::pyvenv_cfg::{parse_cfg_line, parse_pyvenv_cfg, PyvenvCfg};
use uv_bazel::shim::{
    child_environment, find_pyvenv_cfg, interpreter_candidates, manifest_line_entry, pyvenv_cfg_candidates,
    resolve_from_manifest, resolve_interpreter, shim_settings, venv_root_of, ShimSettings,
};
use uv_bazel::text::{str_eq, trim};

fn lines(text: &str) -> Vec<String> {
    text.lines().map(|l| l.to_string()).collect()
}

fn settings(rloc: &str, repo: &str) -> ShimSettings {
    ShimSettings { interpreter_rloc: rloc.to_string(), repo: repo.to_string() }
}

#[test]
fn shim_forwards_args_and_env() {
    // A pyvenv.cfg with the interpreter under RUNFILES_DIR.
    let cfg = parse_pyvenv_cfg(&lines(
        "home = /usr/bin\nimplementation = CPython\naspect-runfiles-interpreter = python3.12/bin/python3.12\naspect-runfiles-repo = _main\n",
    ));
    let s = shim_settings(&cfg).unwrap();
    assert_eq!(s.interpreter_rloc, "python3.12/bin/python3.12");
    assert_eq!(s.repo, "_main");
    let runfiles = Some("/tmp/t/.venv.runfiles".to_string());
    let cands = interpreter_candidates("/tmp/t/.venv/bin/python", &cfg, &s, &runfiles, &None);
    assert_eq!(cands[0], "/tmp/t/.venv.runfiles/_main/python3.12/bin/python3.12");
    let exists: Vec<bool> = cands.iter().enumerate().map(|(i, _)| i == 0).collect();
    let real = resolve_interpreter(&cands, &exists, &s).unwrap();
    assert_eq!(real, "/tmp/t/.venv.runfiles/_main/python3.12/bin/python3.12");
    assert_eq!(venv_root_of("/tmp/t/.venv/pyvenv.cfg").unwrap(), "/tmp/t/.venv");
}

#[test]
fn shim_uses_absolute_fallback() {
    let cfg = parse_pyvenv_cfg(&lines(
        "home = /usr/bin\nimplementation = CPython\naspect-runfiles-interpreter = missing/bin/python\naspect-runfiles-repo = _main\naspect-absolute-interpreter = /tmp/t/fallback_python\n",
    ));
    let s = shim_settings(&cfg).unwrap();
    let cands = interpreter_candidates("/tmp/t/.venv/bin/python", &cfg, &s, &None, &None);
    assert_eq!(
        cands,
        vec![
            "/tmp/t/.venv/bin/python.runfiles/_main/missing/bin/python".to_string(),
            "/tmp/t/fallback_python".to_string(),
        ]
    );
    let exists = vec![false, true];
    assert_eq!(resolve_interpreter(&cands, &exists, &s).unwrap(), "/tmp/t/fallback_python");
}

#[test]
fn shim_uses_runfiles_manifest_file() {
    let cfg = parse_pyvenv_cfg(&lines(
        "home = /usr/bin\nimplementation = CPython\naspect-runfiles-interpreter = python3.12/bin/python3.12\naspect-runfiles-repo = _main\n",
    ));
    let s = shim_settings(&cfg).unwrap();
    let manifest = Some(lines("_main/python3.12/bin/python3.12 /tmp/t/the_real_python\n"));
    let cands = interpreter_candidates("/tmp/t/.venv/bin/python", &cfg, &s, &None, &manifest);
    assert_eq!(cands[0], "/tmp/t/the_real_python");
    let exists = vec![true, false];
    assert_eq!(resolve_interpreter(&cands, &exists, &s).unwrap(), "/tmp/t/the_real_python");
}

#[test]
fn trim_removes_surrounding_whitespace_only() {
    assert_eq!(trim("  a b \t\n"), "a b");
    assert_eq!(trim("   "), "");
    assert_eq!(trim(""), "");
    assert_eq!(trim("\u{a0}x\u{a0}"), "x");
    assert_eq!(trim("\u{3000}\u{85}x\u{2028}\u{1680}"), "x");
    assert_eq!(trim("\u{200b}x"), "\u{200b}x");
}

#[test]
fn trim_agrees_with_char_is_whitespace() {
    for c in (0u32..0x11000).filter_map(char::from_u32) {
        let one = c.to_string();
        assert_eq!(trim(&one).is_empty(), c.is_whitespace(), "U+{:04X}", c as u32);
    }
}

#[test]
fn str_eq_compares_characters() {
    assert!(str_eq("abc", "abc"));
    assert!(!str_eq("abc", "abd"));
    assert!(!str_eq("abc", "ab"));
}

#[test]
fn cfg_line_splits_at_first_equals() {
    assert_eq!(parse_cfg_line(" key = a=b "), Some(("key".to_string(), "a=b".to_string())));
    assert_eq!(parse_cfg_line("novalue"), None);
    assert_eq!(parse_cfg_line("="), Some((String::new(), String::new())));
}

#[test]
fn later_cfg_line_overrides_earlier() {
    let cfg = parse_pyvenv_cfg(&lines("a = 1\nb = 2\na = 3\nnoise\n"));
    assert_eq!(cfg.get("a"), Some("3".to_string()));
    assert_eq!(cfg.get("b"), Some("2".to_string()));
    assert_eq!(cfg.get("noise"), None);
}

#[test]
fn cfg_get_after_insert() {
    let mut cfg = PyvenvCfg::new();
    assert_eq!(cfg.get("k"), None);
    cfg.insert("k".to_string(), "v".to_string());
    cfg.insert("other".to_string(), "w".to_string());
    assert_eq!(cfg.get("k"), Some("v".to_string()));
    cfg.insert("k".to_string(), "v2".to_string());
    assert_eq!(cfg.get("k"), Some("v2".to_string()));
    assert_eq!(cfg.get("other"), Some("w".to_string()));
}

#[test]
fn written_setting_reads_back() {
    let cfg = parse_pyvenv_cfg(&lines("home = /usr\naspect-runfiles-repo = _main\n"));
    assert_eq!(cfg.get("aspect-runfiles-repo"), Some("_main".to_string()));
}

#[test]
fn missing_settings_are_reported_in_order() {
    let cfg = parse_pyvenv_cfg(&lines("aspect-runfiles-repo = r\n"));
    assert_eq!(
        shim_settings(&cfg).err().unwrap(),
        "missing aspect-runfiles-interpreter in pyvenv.cfg"
    );
    let cfg = parse_pyvenv_cfg(&lines("aspect-runfiles-interpreter = p\n"));
    assert_eq!(shim_settings(&cfg).err().unwrap(), "missing aspect-runfiles-repo in pyvenv.cfg");
    let cfg = parse_pyvenv_cfg(&lines(""));
    assert_eq!(
        shim_settings(&cfg).err().unwrap(),
        "missing aspect-runfiles-interpreter in pyvenv.cfg"
    );
}

#[test]
fn manifest_line_fields() {
    assert_eq!(
        manifest_line_entry("a/b /x/y"),
        Some(("a/b".to_string(), "/x/y".to_string()))
    );
    assert_eq!(
        manifest_line_entry("a/b 1 /x/y z"),
        Some(("a/b".to_string(), "/x/y z".to_string()))
    );
    assert_eq!(manifest_line_entry("a/b 0"), None);
    assert_eq!(manifest_line_entry("a/b"), None);
    assert_eq!(
        manifest_line_entry("a/b /p q"),
        Some(("a/b".to_string(), "/p".to_string()))
    );
    assert_eq!(manifest_line_entry("a/b  q"), Some(("a/b".to_string(), String::new())));
}

#[test]
fn manifest_resolution_takes_first_match_and_stops_at_bad_line() {
    let l = lines("x/y /one\n_main/py /two\n_main/py /three\n");
    assert_eq!(resolve_from_manifest(&l, "_main", "py"), Some("/two".to_string()));
    let l = lines("x/y /one\nbroken\n_main/py /two\n");
    assert_eq!(resolve_from_manifest(&l, "_main", "py"), None);
    let l = lines("x/y /one\n");
    assert_eq!(resolve_from_manifest(&l, "_main", "py"), None);
    let l = lines("_main/py 1 /flagged\n");
    assert_eq!(resolve_from_manifest(&l, "_main", "py"), Some("/flagged".to_string()));
}

#[test]
fn pyvenv_cfg_is_looked_for_nearest_first() {
    let cands = pyvenv_cfg_candidates("/a/b/python");
    assert_eq!(
        cands,
        vec![
            "/a/b/python/pyvenv.cfg".to_string(),
            "/a/b/pyvenv.cfg".to_string(),
            "/a/pyvenv.cfg".to_string(),
            "/pyvenv.cfg".to_string(),
        ]
    );
    let found = find_pyvenv_cfg(&cands, &vec![false, false, true, true]);
    assert_eq!(found.unwrap(), "/a/pyvenv.cfg");
    let missing = find_pyvenv_cfg(&cands, &vec![false, false, false, false]);
    assert_eq!(missing.err().unwrap(), "pyvenv.cfg not found");
}

#[test]
fn venv_root_is_the_directory_of_pyvenv_cfg() {
    assert_eq!(venv_root_of("/v/pyvenv.cfg").unwrap(), "/v");
    assert_eq!(venv_root_of("pyvenv.cfg").unwrap(), "");
    assert_eq!(venv_root_of("/").err().unwrap(), "invalid pyvenv.cfg location");
}

#[test]
fn interpreter_candidates_follow_documented_order() {
    let cfg = parse_pyvenv_cfg(&lines("aspect-absolute-interpreter = /abs/python\n"));
    let s = settings("bin/py", "repo");
    let cands = interpreter_candidates(
        "/v/bin/python",
        &cfg,
        &s,
        &Some("/rf".to_string()),
        &Some(lines("repo/bin/py /from/manifest\n")),
    );
    assert_eq!(
        cands,
        vec![
            "/rf/repo/bin/py".to_string(),
            "/from/manifest".to_string(),
            "/v/bin/python.runfiles/repo/bin/py".to_string(),
            "/abs/python".to_string(),
        ]
    );
    let none = vec![false; 4];
    assert_eq!(
        resolve_interpreter(&cands, &none, &s).err().unwrap(),
        "could not resolve interpreter bin/py for repo repo"
    );
    let later = vec![false, false, true, true];
    assert_eq!(
        resolve_interpreter(&cands, &later, &s).unwrap(),
        "/v/bin/python.runfiles/repo/bin/py"
    );
}

#[test]
fn windows_command_line_quotes_each_argument() {
    let w = |s: &str| s.encode_utf16().collect::<Vec<u16>>();
    let line = windows_command_line(&w("C:\\v\\python.exe"), &vec![w("-c"), w("print(1)")]);
    let mut expected = w("\"C:\\v\\python.exe\" \"-c\" \"print(1)\"");
    expected.push(0);
    assert_eq!(line, expected);
    let bare = windows_command_line(&w("s"), &vec![]);
    assert_eq!(bare, vec![34, 115, 34, 0]);
    let dir_shim = windows_command_line(&w("C:\\v\\"), &vec![w("a")]);
    let mut expected = w("\"C:\\v\\\" \"a\"");
    expected.push(0);
    assert_eq!(dir_shim, expected);
    assert_eq!(wide_nul_terminated(&w("py")), vec![112, 121, 0]);
}

#[test]
fn child_environment_sets_venv_and_executable() {
    let env = child_environment("/v/.venv", "/rf/py/bin/python3");
    assert_eq!(
        env,
        vec![
            ("VIRTUAL_ENV".to_string(), "/v/.venv".to_string()),
            ("PYTHONEXECUTABLE".to_string(), "/rf/py/bin/python3".to_string()),
            ("PYTHONNOUSERSITE".to_string(), "1".to_string()),
        ]
    );
}
