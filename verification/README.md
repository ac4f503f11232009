# game2048

A 2048 game whose model and panel logic are verified with Verus.

- `src/` is the verified library:
  - `tile`, `column`, `side`, `field`, `grid`, `swipe`: tiles, the field they lie on (held
    in an `ndarray` array), and the swipe toward a side, specified line by line;
  - `append`: the empty cells and the new tile placed at random (`rand`);
  - `array`: conversion between a field and the grid of values its tiles show;
  - `top_level`: the test that makes a swipe safe;
  - `totals`, `laws`: what every swipe keeps (the value of each line and of the field; the
    number of tiles, less one for each merge) and
    what it achieves (the tiles of each line lie together at the side); the round trip
    from a grid of values to a field and back;
  - `game`: a game started with two tiles, and a move (a swipe, then two new tiles);
  - `animation`: how each tile's picture follows a change;
  - `panel`, `control`, `input`, `main_panel`, `style`: panel ids and handles,
    the control manager's focus decisions, the answers of the panels to keys and clicks,
    the main panel's decisions, and the colours and font sizes of tiles.
- `app/` opens the window with `winit`, lays the panels out (floating point), carries out
  the library's decisions and prints the game as text.
- `tests/` runs the library on concrete values.
