# deathloop_invader_tool

A read-only overlay for Deathloop that shows who the opponent is, the host's
campaign day and the game peer's connection figures.

- `src/` is the library, verified with Verus: decoding of the game's memory
  (player ids, names, roles, campaign day), the choice of the game peer and the
  network monitor, the keyboard state machine, the settings file format and tray
  menu, and the text the overlay draws.
- `tests/` runs the library on concrete values.
- `app/` is the Windows program around it: process attachment and memory reads,
  the window, the tray icon, keyboard polling and the settings file on disk.
