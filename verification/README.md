# steel_light

The lighting and chunk bookkeeping of a block game server, written in Rust and
proved with Verus.

- `src/` is the verified library: nibble and section storage, light queues, the
  five-by-five light window, block and sky light propagation, light packets,
  paletted containers and sections, waiting light changes, and the decisions of
  the chunk map.
- `tests/` runs the library on concrete worlds.
- `app/` connects the library to a running server: locks, thread pools,
  background tasks, storage and the network.

Hash maps and sets come from `rustc-hash`; their contracts stand in
`src/fx.rs`. Everything else in `src/` is proved.
