# wow_recorder

A Mythic+ recorder for World of Warcraft: it follows the newest combat log,
detects `CHALLENGE_MODE_START` / `CHALLENGE_MODE_END`, and drives a capture
backend, writing a JSON metadata sidecar next to each recording.

The library (`src/`) is verified with Verus:

- `text` — trimming, searching, integer parsing and printing on characters;
- `paths` — joining a file name onto a directory (with `std::path`), and the sidecar path of a video;
- `combatlog` — parsing combat-log lines into events;
- `logfiles` — where a WoW `Logs` directory is looked for, and choosing the newest fresh log file (file names matched with `regex`);
- `tail` — where to read the followed log from, and the events of newly written lines;
- `config` — settings, encoder CQP and output resolution;
- `recorder` — the capture-backend trait and its no-op and OBS backends;
- `session` — the recording controller, which owns the capture backend, and the metadata it produces;
- `window` — the client size of the game window.

`app/` is the program around it: configuration file, the environment and
drive probing for the log directory, directory scanning and file reading, the clock, creating the output directory, the stop delay, and
writing the sidecar. It runs headless: there is no tray window, and the
status and settings handlers in `app/main.rs` (`get_status`, `get_config`,
`set_config`, `open_recordings_folder`) are kept for a front end but nothing
calls them; `run` watches the log until the process is stopped.
