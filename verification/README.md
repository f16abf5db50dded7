# uv_bazel

The verified core of the Bazel runfiles mode for Python virtual environments: the
decisions that turn a standard virtual environment into one whose `site-packages`
points into the Bazel runfiles tree, and the decisions of the small shim that replaces
the environment's `python` and finds the real interpreter in the runfiles tree.

- `src/` is the library, verified with Verus:
  - `text.rs`: character helpers (splitting, trimming, comparing);
  - `path_ops.rs`: the `std::path` operations used, behind trusted wrappers;
  - `pyvenv_cfg.rs`: reading `pyvenv.cfg` settings;
  - `shim.rs`: where `pyvenv.cfg` is, the shim's settings, runfiles manifest lookup and
    the order in which interpreter locations are tried;
  - `command_line.rs`: the UTF-16 command line used on Windows;
  - `manifest.rs`: the dependency manifest;
  - `postprocess.rs`: the `pyvenv.cfg` settings, per-entry actions, `_bazel.pth`;
  - `populate.rs`: relative links and the plans for the `symlink` and `copy` strategies;
  - `target.rs`: the target triple and shim choice for an interpreter's platform.
- `app/` is the shim program and the filesystem work of post-processing: it reads files,
  walks directories, carries out the library's plans and starts the interpreter.
- `tests/` runs the library on concrete inputs.
