# Red-Black Maze

A retro raycaster in which the player crosses a maze of playing-card walls,
either to reach the goal (Portal mode) or to survive the Dealers' Hands until
The King falls (Horde mode).

The rules of the game are a Verus library whose behaviour is stated in
contracts and proved:

- `level`, `grid`, `distance`: the maze as a grid of tiles, its validation,
  and navigation distances (breadth-first) from any cell;
- `rng`, `placement`: the deterministic generator and every placement rule
  (spawn cells kept at a safe distance and out of sight, clustered spawns,
  spaced ammunition, the encircling wave);
- `hand`: the Hands progression (intermission, countdown, doubling counts);
- `weapon`, `health`, `session`: the weapon's state machine, the player's
  health, and the session that ties pickups, supplies, The Royal Flush and
  The King together;
- `state`, `flow`: the screen states and their end-of-run rules, and the
  screen flow: what a frame of play decides before and after the world
  moves, the sounds of its events, and the level selection, pause, victory
  and defeat menus;
- `mode`, `audio`, `hud`, `input`: game modes, the sound catalogue and its
  cue rules, HUD texts, keyboard intent.

`app/` is the program around it: the raylib window, input, audio devices,
level files, floating-point geometry (ray casting, hitscan, enemy motion)
and drawing. Levels are read from `levels/*.txt`, one row of tiles per line:
`p` player, `g` goal, `e` Dealer, `a` ammunition, `h` health, space for floor,
any other character a wall.
