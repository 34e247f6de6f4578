# timeline_tactics

The rules core of a turnless tactics game: whoever has an empty decision slot may
decide, the world freezes while someone still owes a decision, and the HUD reads the
state out. The library in `src/` is written in Verus and its functions are proved
against their contracts, except one small trusted wrapper whose contract is
believed: `random_in`, a call of `rand::random_range` (only its range is stated). `app/` is the thin Bevy layer around it.

## Layout

- `src/skills/` — the ability catalogue: definitions, counter tags, and the registry
  that merges every domain's abilities (ids unique, menu order stable).
- `src/timeline/` — decision slots and who may decide next, the undo choice, Focus,
  cancellation rules, the interrupt contest (3d5 against 3d5), and the freeze clock:
  this frame's pause reasons and the one step that turns requests into "paused or
  running".
- `src/hud/` — what the HUD shows: labels, the timeline lanes and staging area, the
  hover read-out and action lines, the unit panels (player first, enemies nearest
  first), the skill bar's slot states, the threat grid's cells, the hint bar, the
  battle log, and the snapshots that keep the HUD from rewriting what did not change.
- `src/units.rs`, `src/text.rs` — board values and the text helpers (label order,
  decimal numerals) shared by the rest.
- `app/` — ECS components and systems that carry these values through a Bevy world,
  and the arithmetic on the engine's `f32` seconds and distances.

## Verification

The library verifies with Verus; `tests/` exercises it on concrete values.
