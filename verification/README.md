# dino_jump

A watercolour "jump over the trees" runner built on the Bevy game engine,
split into a verified rules library and a thin Bevy application.

- `src/` — the library, verified with Verus:
  - `pixel_mask` — alpha masks built from RGBA image bytes, pixel lookup;
  - `collision` — the pixel-perfect scan of an overlap region and the
    two-phase dino/tree check (box test, pixel scan, tighter-box fallback);
  - `game` — running / game-over state, scoring and speed-up, restart,
    jump and game-over-text decisions;
  - `hud` — the score and speed lines of the heads-up display;
  - `trees` — the three tree variants and the random pick among them.
- `app/` — the Bevy application: plugins, systems, components and
  resources, and everything computed in floating point (movement, gravity,
  bounding boxes in world space, layout).
- `tests/` — tests of the library on concrete values.
