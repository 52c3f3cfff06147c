# breakout

The rules of a brick-breaking game, verified with Verus, and the game around them.

- `src/kinds.rs`: brick and power-up kinds, their hits, points, labels, messages and paint.
- `src/layout.rs`: the eight level patterns and the brick layout of every level, with the
  laws that a level fills exactly its pattern's cells row by row, that layouts repeat every
  eight levels and that the first eight differ.
- `src/game.rs`: score, lives, combo, paddle width, shield, magnet, brick damage and the flow
  from the menu through the levels to game over, with the law that every sequence of rule
  steps in a frame keeps the score from falling, the level fixed and the bricks only wearing down.
- `src/blast.rs`: chained explosions, proved to wreck exactly the least set of bricks closed
  under the blast, to show their blasts and debris in the order they happen, and to set off
  one explosion more than the explosive bricks they wreck.
- `src/drops.rs`: which power-up a destroyed brick drops.
- `app/main.rs`: the window, input, physics, particles and drawing (macroquad), which hand
  the library what the geometry decided.
