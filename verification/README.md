# disactivity

The rules behind Disactivity, a desktop application that shows a game as running
without the game being installed: it puts a small stand-in executable where the
game's own would be and starts it. The rules are written in Rust and verified
with Verus.

- `src/` is the verified library. Every function states what it returns; the
  laws that relate several functions are public proof functions beside them.
  - `text`, `ranking`, `json`: texts, stable ordering, JSON values.
  - `catalog`, `cache`, `favorites`: the games on offer, how long the cached
    catalogue counts, the favorite games.
  - `web`, `fetch`: the requests, step by step.
  - `steam`, `steam_path`, `manifest`: what Steam says of an app, where it is
    installed, and the manifest that marks an app as installed.
  - `paths`, `plan`, `running`, `launch`: where files are put, what is done and
    undone, and which games run.
- `app/` is the application around the library: the window, the network, the
  registry, the files and the processes.
- `tests/` runs the library.

What is believed without proof stands in the items marked `external_body`,
`external_type_specification` and `assume_specification`, each with a comment
that says what is claimed of which outside function.
