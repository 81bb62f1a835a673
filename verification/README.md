# puyo_screensaver

The rules of a puyo screensaver, verified with Verus. Boards are columns of
puyos stacked from row 0; when a board is still it is filled at random, its
puyos fall and jiggle, groups of one colour pop, the popped puyos shrink away,
and the puyos above them fall in turn.

- `src/` is the verified library:
  - `dir`: the four directions, their opposites, and steps between cells;
  - `puyo_chara`: the kinds of puyo and how jiggles spread between them;
  - `board`: boards, puyos and their states;
  - `owanimo_impl`: what a board tells the group finder (cells, neighbours,
    connections, colours);
  - `main_loop`: what a board does next; casts, banishing, impulses and
    filling a board anew;
  - `cartesian`: boards kept as a flat list of puyos with their cells:
    lookups, gravity, casting and random filling;
  - `layout`: reading a board written as text.
- `app/` is the program around it: the window, the entities and assets, the
  group finder and scorer (`owanimo`) and the floating-point physics
  (`jiggly_fever`).
- `tests/` runs the library on concrete boards.

Animation values (`f32`) pass through the library as their bit patterns
(`F32Bits`); the library stores and copies them, and the program computes with
them.
