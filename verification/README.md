# read_bazel_log

A build helper for Android projects built with Bazel and Gradle.

- `src/` is the library, written and proved with Verus:
  - `text.rs`: character-level string operations (find, replace, trim, split, decimal numbers);
  - `path.rs`: joining paths as text;
  - `pattern.rs`: regular-expression searches (through the `regex` and `fancy-regex` crates) and capture-group extraction;
  - `gradle.rs`: included modules, `ext` variables, applied scripts and dependencies of Gradle scripts;
  - `walk.rs`: the walk from a build script through the scripts it applies, over the scripts read so far;
  - `manifest.rs`: `uses-permission` entries of Android manifests (through `quick-xml`) and their merge into the main manifest;
  - `cli.rs`: options, commands and build timings of the command-line tool.
- `app/` is the command-line program around it: arguments, files, processes, directory walks and printing.
- `tests/` runs the library on concrete inputs.
