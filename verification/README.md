# geosia

The game logic of Geosia, a voxel game, as a library whose behaviour is stated in contracts
and proved with Verus.

## Layout

- `src/coordinates.rs`: block and chunk coordinates, splitting a block position into its chunk
  and in-chunk offset, directions.
- `src/voxel/`: chunk storage, a map keyed by chunk position, the flat world generator, tree
  decorators, the chunk persistence layers (empty, in-memory, generator-backed, and the command
  and response bookkeeping of the savefile layer), and the server's chunk loading and sending.
- `src/network/`: peer addresses and entity network ids, the packet types and what each side
  does with them, the byte framing of packet streams, the login rules and connection tables of
  the server, the client's connection state machine, and entity synchronisation (which player
  is aware of which entity, and what each must be sent).
- `src/client/`: application states, the loading transition, the chat overlay, cursor grabbing,
  input bindings, and client-side chunk bookkeeping.
- `src/promises.rs`: result holders for work done on another thread.
- `src/player.rs`, `src/console.rs`: player avatars, and the dedicated server's console commands.
- `tests/`: tests run against the compiled library.
- `app/`: the dedicated server's console program.
