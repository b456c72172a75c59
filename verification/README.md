# bozz_torio

Bozz-torio is a small cooperative factory game: miners, furnaces, assemblers, conveyors and
splitters feed a delivery hub that works through a list of contracts. Players can share one
factory through a Steam lobby, where the host runs the factory and guests send commands and
receive snapshots.

The library in `src/` holds the game's rules with their contracts, proved by Verus:

- `sim` — the factory: placing, removing, buying, loading by hand, and the fixed tick in
  which items move and buildings work; `factory_laws` states what every tick and command keeps.
- `multiplayer`, `snapshot`, `steam_net` — host-authoritative commands, the bounded snapshot
  protocol (compressed with zlib, split into base64 parts), and the lobby session that decides
  who hosts, whom to hear, which commands to take once, and when to share the factory.
- `runtime`, `hud` — the factory screen's controls: tools, view, panels, keys and buttons,
  the effect each asks of the program, and the screen's readouts and live buttons.
- `scene`, `scene_numbers`, `json` — the editor scene every new factory starts from: its
  JSON read by `serde_json`, its floor, deposits, hub, machines and blackboard settings
  checked, and the factory built from it.
- `save`, `package`, `stage` — checks on a loaded save, where an exported game's assets go,
  and which tiles and item movements the presentation shows.
- `editor` — rules of the Bozzard editor the game is built with: docking, file dialogs,
  export folder names, inspector labels and the gameplay key latch.

`app/` is the program around the library: command line, the scene and save files on disk, and the JSON
framing of saves and network messages. `tests/` exercises the library on concrete games,
lobbies and key sequences.
