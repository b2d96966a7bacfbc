# ports_launcher

The logic of a launcher for native source ports and recompilations of
console games: a JSON catalogue of ports, installation from GitHub or GitLab
releases or direct links, update checks, saves kept across reinstallations,
a live search, gamepad navigation and a few hidden cheat codes.

Every function under `src/` is verified with Verus against its contract,
except the small trusted wrappers (marked `external_body`) through which it
calls the standard library, `serde_json`, `chrono` and `image`; their
contracts are stated from those libraries' documentation and sources.

## Layout

- `src/` – the verified library.
  - `json`, `text`, `numbers`, `version` – the JSON model and text helpers.
  - `models`, `config`, `search`, `library_view` – catalogue entries, the
    catalogue files, the search and the lists shown.
  - `platform_resolve`, `path_safety`, `executable`, `launch` – per-platform
    values, safe paths, choosing and starting the executable.
  - `asset_select`, `github_api`, `gitlab_api`, `installer`, `jobs`,
    `image_cache`, `save_backup` – choosing, downloading and installing
    release files, and the checks around them.
  - `state`, `settings`, `throttles` – the saved state and the network
    check intervals.
  - `sequence`, `konami`, `cheats`, `gamepad_router`, `dialog_nav`,
    `info_dialog`, `events`, `grid`, `theme`, `font_fit`, `chrome` – interface
    logic.
- `tests/` – tests run against the compiled library.
- `app/` – a command-line front end: file and network I/O, the extraction
  tool, and the few computations done in floating point.
