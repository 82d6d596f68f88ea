# rustgl

The logic of a small online game, verified with Verus: the networking
(length-prefixed TCP framing, command IDs, the client's connection state
machine and the steps of its polling, the console command parser), the players a server keeps (IDs,
unique names, which connection each player is on), the world's bookkeeping
(character IDs, component tables, status and base component reduction, tick
command ordering, what one tick does with the systems' results), the
decisions of abilities and auto attacks, the chat (the command parser, the
history a chat box keeps, the line being typed, the keyboard's typing mode) and the packing of
font glyphs into a texture and the copying of their bitmaps into it.

- `src/` is the verified library: its functions carry contracts that Verus
  proves, apart from six small wrappers around `String::push`,
  `String::truncate`, `HashMap::get_mut` and itertools' `group_by`,
  `into_group_map` and `sorted_unstable_by`, whose contracts are taken on
  trust from those functions' source and documentation.
- `tests/` runs the library on concrete values.
- `app/` is the program around it: sockets, threads, the console, and the
  serde forms of the commands that travel.

The floating-point parts of the game systems (movement, the timing of
abilities and attacks), the rendering and the font rasterisation are not
part of this crate.
