# transcriber_kun

The verified core of a desktop podcast transcriber (Tauri front end, Python helpers).

- `src/` — the library, verified with Verus: finding Python and ffmpeg (as step
  machines that ask the caller about the file system), the helpers' command lines,
  reading their JSON output lines (JSON text is read through `serde_json`, whose
  results are named in `src/json.rs`), settings, the job registry, the transcript history
  (memo keys, UTC timestamps, listing, loading, deleting) and the package installation
  steps. Laws about these stand beside them as proof functions.
- `tests/` — tests of the library on concrete values.
- `app/` — the Tauri commands: file system, child processes, dialogs and the settings
  file, driving the library.
