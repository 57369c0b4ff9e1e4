# teralaunch

The decision logic of a TERA game launcher, verified with Verus.

- `src/` is the verified library: version comparison, the game-file
  manifest (`hashfile`, `manifest`), the choice of files to download and the
  file-hash cache (`plan`, `cache`, `table`), SHA-256 checks (`digest`), the
  account server's addresses, login form and session cookie (`login`), the
  reading of the launcher page's address maps (`pagemaps`), the session and
  launch state (`session`), the configuration file (`config`), maintenance
  notices, TeraToolbox management (`toolbox`) and the self-update script.
- `tests/` runs the library on concrete inputs, several against the std and
  regex implementations of the same operations.
- `app/` is the Tauri program around the library: file and network I/O,
  progress events and the front-end commands.
