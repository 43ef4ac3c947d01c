# keykoff

A tray launcher: a global hotkey opens a small input line, typing filters the
saved commands, and a digit or Enter starts one. Commands are programs or
groups of other commands.

## Layout

- `src/` is the verified library (Verus). It holds the configuration model
  (`config`), group reachability and cycle detection (`groups`), search and
  member suggestions (`search`), the interaction state machine (`app`,
  `overlay`, `dialogs`, `editing`, `settings`), the hotkey model (`hotkey`),
  what starting a program means (`launcher`), the foreground-taking sequence
  and its input records (`focus`), the tray icon's pixels (`tray`) and string
  helpers (`text`). Every public function states its behaviour in
  `requires`/`ensures`; the properties that span several functions are proof
  functions named `lemma_*`.
- `app/` is the program around it: the window (eframe/egui), the tray icon,
  the global hotkey, reading and writing `config.json` with serde, spawning
  processes, the registry for autostart, and the Win32 calls that take the
  foreground. It only gathers events, hands them to the library and performs
  what the library decides.
- `tests/` runs the library on concrete cases.
