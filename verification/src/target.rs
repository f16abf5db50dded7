//! The choice of the shim binary for the interpreter's platform.
use vstd::prelude::*;
use crate::text::str_eq;

verus! {

/// The Rust target triple of an interpreter's platform (`os`, `arch`, `libc`), for the
/// platforms that have a shim.
pub open spec fn spec_target_triple(os: Seq<char>, arch: Seq<char>, libc: Seq<char>) -> Option<Seq<char>> {
    if os == "macos"@ && arch == "aarch64"@ && libc == "none"@ {
        Some("aarch64-apple-darwin"@)
    } else if os == "macos"@ && arch == "x86_64"@ && libc == "none"@ {
        Some("x86_64-apple-darwin"@)
    } else if os == "linux"@ && arch == "aarch64"@ && libc == "gnu"@ {
        Some("aarch64-unknown-linux-gnu"@)
    } else if os == "linux"@ && arch == "aarch64"@ && libc == "musl"@ {
        Some("aarch64-unknown-linux-musl"@)
    } else if os == "linux"@ && arch == "x86_64"@ && libc == "gnu"@ {
        Some("x86_64-unknown-linux-gnu"@)
    } else if os == "linux"@ && arch == "x86_64"@ && libc == "musl"@ {
        Some("x86_64-unknown-linux-musl"@)
    } else if os == "windows"@ && arch == "x86_64"@ && libc == "gnu"@ {
        Some("x86_64-pc-windows-gnu"@)
    } else if os == "windows"@ && arch == "x86_64"@ {
        Some("x86_64-pc-windows-msvc"@)
    } else {
        None
    }
}

/// The Rust target triple for an interpreter's `os`, `arch` and `libc`, where a shim
/// exists for that platform.
pub fn interpreter_target_triple(os: &str, arch: &str, libc: &str) -> (r: Option<String>)
    ensures
        r matches Some(t) ==> spec_target_triple(os@, arch@, libc@) == Some(t@),
        r is None ==> spec_target_triple(os@, arch@, libc@) is None,
{
    let macos = str_eq(os, "macos");
    let linux = str_eq(os, "linux");
    let windows = str_eq(os, "windows");
    let aarch64 = str_eq(arch, "aarch64");
    let x86_64 = str_eq(arch, "x86_64");
    let none = str_eq(libc, "none");
    let gnu = str_eq(libc, "gnu");
    let musl = str_eq(libc, "musl");
    if macos && aarch64 && none {
        Some(String::from_str("aarch64-apple-darwin"))
    } else if macos && x86_64 && none {
        Some(String::from_str("x86_64-apple-darwin"))
    } else if linux && aarch64 && gnu {
        Some(String::from_str("aarch64-unknown-linux-gnu"))
    } else if linux && aarch64 && musl {
        Some(String::from_str("aarch64-unknown-linux-musl"))
    } else if linux && x86_64 && gnu {
        Some(String::from_str("x86_64-unknown-linux-gnu"))
    } else if linux && x86_64 && musl {
        Some(String::from_str("x86_64-unknown-linux-musl"))
    } else if windows && x86_64 && gnu {
        Some(String::from_str("x86_64-pc-windows-gnu"))
    } else if windows && x86_64 {
        Some(String::from_str("x86_64-pc-windows-msvc"))
    } else {
        None
    }
}

/// The message for a platform that has no shim.
pub open spec fn spec_missing_shim_message(target: Option<Seq<char>>) -> Seq<char> {
    "No Bazel shim available for target "@ + (match target {
        Some(t) => t,
        None => "unknown"@,
    }) + ". Run `cargo build -p uv-bazel-shim --release --target <triple>` and copy the binary to crates/uv/src/commands/venv/shims/"@
}

/// The first position of `target` among the shims on offer.
pub open spec fn index_of_target(available: Seq<Seq<char>>, target: Seq<char>) -> Option<int>
    decreases available.len(),
{
    if available.len() == 0 {
        None
    } else if available[0] == target {
        Some(0)
    } else {
        match index_of_target(available.drop_first(), target) {
            Some(i) => Some(i + 1),
            None => None,
        }
    }
}

/// The shim for a platform: the position of its target triple among the triples of the
/// shims on offer (`available`); where the platform has no triple or no shim is on
/// offer for it, the message that says so.
pub fn select_shim(target: &Option<String>, available: &Vec<String>) -> (r: Result<usize, String>)
    ensures
        r matches Ok(i) ==> target matches Some(t) && index_of_target(
            crate::pyvenv_cfg::views(available@),
            t@,
        ) == Some(i as int),
        r matches Err(e) ==> e@ == spec_missing_shim_message(crate::shim::opt_view(*target)),
        r is Err <==> (target is None || index_of_target(
            crate::pyvenv_cfg::views(available@),
            target->0@,
        ) is None),
{
    if let Some(t) = target {
        let mut i: usize = 0;
        let ghost all = crate::pyvenv_cfg::views(available@);
        assert(all.skip(0) =~= all);
        while i < available.len()
            invariant
                i <= available.len(),
                all == crate::pyvenv_cfg::views(available@),
                *target == Some(*t),
                index_of_target(all, t@) == (match index_of_target(all.skip(i as int), t@) {
                    Some(k) => Some(k + i),
                    None => None,
                }),
            decreases available.len() - i,
        {
            assert(all.skip(i as int).drop_first() =~= all.skip(i + 1));
            assert(all.skip(i as int)[0] == available@[i as int]@);
            if available[i].eq(t) {
                assert(index_of_target(all.skip(i as int), t@) == Some(0int));
                return Ok(i);
            }
            i = i + 1;
        }
    }
    let shown = match target {
        Some(t) => t.as_str(),
        None => "unknown",
    };
    Err(
        String::from_str("No Bazel shim available for target ").concat(shown).concat(
            ". Run `cargo build -p uv-bazel-shim --release --target <triple>` and copy the binary to crates/uv/src/commands/venv/shims/",
        ),
    )
}

/// Law: the shim chosen is the first one on offer whose target triple is exactly the
/// interpreter's: `index_of_target` (what `select_shim` returns) names a position that
/// holds `target`, with no earlier one holding it, and names none only where no position
/// holds `target`.
pub proof fn law_shim_matches_target_exactly(available: Seq<Seq<char>>, target: Seq<char>)
    ensures
        index_of_target(available, target) matches Some(i) ==> {
            &&& 0 <= i < available.len()
            &&& available[i] == target
            &&& forall|j: int| 0 <= j < i ==> available[j] != target
        },
        index_of_target(available, target) is None ==> forall|j: int|
            0 <= j < available.len() ==> available[j] != target,
    decreases available.len(),
{
    if available.len() > 0 && available[0] != target {
        law_shim_matches_target_exactly(available.drop_first(), target);
        assert forall|j: int| 1 <= j < available.len() implies available[j] == available.drop_first()[j - 1] by {}
    }
}

/// Law: the target triple names the interpreter's platform: `<arch>-apple-darwin` on
/// macOS, `<arch>-unknown-linux-<libc>` on Linux, and `<arch>-pc-windows-gnu` or
/// `<arch>-pc-windows-msvc` on Windows (the latter for any libc but `gnu`).
pub proof fn law_triple_names_platform(os: Seq<char>, arch: Seq<char>, libc: Seq<char>)
    requires
        spec_target_triple(os, arch, libc) is Some,
    ensures
        ({
            let t = spec_target_triple(os, arch, libc)->0;
            &&& os == "macos"@ ==> t == arch + "-apple-darwin"@
            &&& os == "linux"@ ==> t == arch + "-unknown-linux-"@ + libc
            &&& os == "windows"@ ==> t == arch + (if libc == "gnu"@ {
                "-pc-windows-gnu"@
            } else {
                "-pc-windows-msvc"@
            })
        }),
{
    reveal_strlit("macos");
    reveal_strlit("linux");
    reveal_strlit("windows");
    reveal_strlit("aarch64");
    reveal_strlit("x86_64");
    reveal_strlit("none");
    reveal_strlit("gnu");
    reveal_strlit("musl");
    reveal_strlit("-apple-darwin");
    reveal_strlit("-unknown-linux-");
    reveal_strlit("-pc-windows-gnu");
    reveal_strlit("-pc-windows-msvc");
    reveal_strlit("aarch64-apple-darwin");
    reveal_strlit("x86_64-apple-darwin");
    reveal_strlit("aarch64-unknown-linux-gnu");
    reveal_strlit("aarch64-unknown-linux-musl");
    reveal_strlit("x86_64-unknown-linux-gnu");
    reveal_strlit("x86_64-unknown-linux-musl");
    reveal_strlit("x86_64-pc-windows-gnu");
    reveal_strlit("x86_64-pc-windows-msvc");
    assert("macos"@[0] == 'm' && "linux"@[0] == 'l' && "windows"@[0] == 'w');
    assert("macos"@ != "linux"@ && "macos"@ != "windows"@ && "linux"@ != "windows"@);
    if os == "macos"@ && arch == "aarch64"@ && libc == "none"@ {
        assert(arch + "-apple-darwin"@ =~= "aarch64-apple-darwin"@);
    } else if os == "macos"@ && arch == "x86_64"@ && libc == "none"@ {
        assert(arch + "-apple-darwin"@ =~= "x86_64-apple-darwin"@);
    } else if os == "linux"@ && arch == "aarch64"@ && libc == "gnu"@ {
        assert(arch + "-unknown-linux-"@ + libc =~= "aarch64-unknown-linux-gnu"@);
    } else if os == "linux"@ && arch == "aarch64"@ && libc == "musl"@ {
        assert(arch + "-unknown-linux-"@ + libc =~= "aarch64-unknown-linux-musl"@);
    } else if os == "linux"@ && arch == "x86_64"@ && libc == "gnu"@ {
        assert(arch + "-unknown-linux-"@ + libc =~= "x86_64-unknown-linux-gnu"@);
    } else if os == "linux"@ && arch == "x86_64"@ && libc == "musl"@ {
        assert(arch + "-unknown-linux-"@ + libc =~= "x86_64-unknown-linux-musl"@);
    } else if os == "windows"@ && arch == "x86_64"@ && libc == "gnu"@ {
        assert(arch + "-pc-windows-gnu"@ =~= "x86_64-pc-windows-gnu"@);
    } else if os == "windows"@ && arch == "x86_64"@ {
        assert(arch + "-pc-windows-msvc"@ =~= "x86_64-pc-windows-msvc"@);
    }
}

/// Law: the shim chosen for an interpreter is built for the interpreter's own
/// architecture: the target triple starts with `arch`.
pub proof fn law_triple_matches_arch(os: Seq<char>, arch: Seq<char>, libc: Seq<char>)
    requires
        spec_target_triple(os, arch, libc) is Some,
    ensures
        ({
            let t = spec_target_triple(os, arch, libc)->0;
            arch.len() <= t.len() && t.take(arch.len() as int) == arch
        }),
{
    reveal_strlit("aarch64");
    reveal_strlit("x86_64");
    reveal_strlit("aarch64-apple-darwin");
    reveal_strlit("x86_64-apple-darwin");
    reveal_strlit("aarch64-unknown-linux-gnu");
    reveal_strlit("aarch64-unknown-linux-musl");
    reveal_strlit("x86_64-unknown-linux-gnu");
    reveal_strlit("x86_64-unknown-linux-musl");
    reveal_strlit("x86_64-pc-windows-gnu");
    reveal_strlit("x86_64-pc-windows-msvc");
    let t = spec_target_triple(os, arch, libc)->0;
    if arch == "aarch64"@ {
        assert(t.take(7) =~= arch);
    } else {
        assert(arch == "x86_64"@);
        assert(t.take(6) =~= arch);
    }
}

} // verus!
