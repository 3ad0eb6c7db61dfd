# arenic

The rules of Arenic — a 3×3 grid of arenas where every character records a
two-minute staff that replays as a ghost — as a library verified with Verus.
Every executable function in `src/` carries a `requires`/`ensures`
contract over a mathematical model (`Seq`, `Map`, views of the library's
types), except the four `From` conversions between actions and their file
rows, whose meaning Verus takes from their `from_spec`. The library's laws
stand as public proof functions (`law_*`).

## Layout

- `src/` — the verified library.
  - Board and arenas: `grid`, `arena`, `theme`, `tile`.
  - Record and replay: `timeline` (fold/unfold of staffs into an arena's
    score, the clock, due events), `recording` (the R-key flow, countdown,
    modal choices), `travel` (edge walks between arenas), `modal`.
  - Encounters and files: `encounter` (difficulties, phases, loadouts, boss
    score files), `versions` (versioned file names), `layer` (layer stacks,
    mute/solo, stack files), `published`, `sync` (when a running arena swaps
    to a newer published stack).
  - Tile choreography: `tile_script` (keyframes and the board delta they ask
    for), `tile_delta` (the hash maps that carry deltas, behind trusted
    wrappers of `bevy_platform`'s `HashMap`), `tile_play` (applying a delta to
    a board and reverting exactly what a script touched).
  - Authoring: `author` (tile editor, scrubbing, possession, the author HUD),
    `layer_edit`, `effect` (keyframed effect tracks), `sheet_edit`,
    `sheet_modal` and `sheet_keys` (the dope sheet's editing grammar),
    `sheet_rows`, `ruler`, `rename`, `browser` and `browser_tree` (the entity
    browser), `popout`.
  - Screens and input: `gates` (which input may act when), `states`,
    `focus`, `hud`, `music`, `ability`, `scenery` (each arena's look as data).
- `tests/` — tests on concrete values.
- `app/` — a headless program around the library: the file I/O (RON score
  files and settings through `serde`/`ron`), the float-valued effect sampling
  and easing curves (through `bevy_math`), and a report of what each arena
  would play.
