# entangled_worlds

Verified core of the Noita Entangled Worlds multiplayer mod, written in Verus.

`src/` holds the logic, each function with a contract that Verus proves:

- `chunk`, `encoding`, `world_model`: the proxy's model of the terrain — compact
  pixels, chunks with change marks, run-length encoding, and the world model that
  applies chunk data, deltas and updates from the game and hands the game back
  what changed.
- `world_sync`: the runs of packed pixels the game and the proxy exchange.
- `des_manager`: the proxy's store of distributed entities (enemies and items),
  who holds authority over each, a spatial index (an `rstar` tree) of the ones
  nobody holds, and the replies it queues for the game.
- `game_effects`: which of an entity's game effects to remove, extend or spawn
  so that they match the list another peer sends.
- `poly_gid`: reading the global id of a polymorphed entity from serialized data.
- `api`, `text`, `mod_files`: entity and component ids, tag, variable and damage
  names, tag lists, stain masks, and names read from the game's data files.
- `entity_cache`: what the game-side code remembers of the entity it works on —
  tags and components per type, parked per entity while another one is current.
- `noita_types`, `std_vec`, `component_buffer`, `game_layout`, `components`,
  `heap`: the game's strings, vectors, maps, bit sets and component tables, held
  as plain values.
- `basic_types`, `des`, `messages`, `tangled`: values shared between the game,
  the proxy and the network layer.
- `cli`: the choices made when the proxy starts from the command line.
- `launcher`, `settings`, `asset`, `color`: starting the game, settings, assets
  and colours.

`app/` is the file-system and process side: reading what the game and Steam left
on disk and starting the game. `tests/` runs the library on concrete values.
