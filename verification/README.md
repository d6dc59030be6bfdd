# butterfly_game

The rules of a small top-down action game, verified with Verus.

- `src/skill_q.rs`, `src/skill_e.rs`, `src/skill_r.rs`: cooldowns of the three
  skills, the charge stacks of Q, the casts, and the hit handlers and timers
  of the projectiles each skill fires.
- `src/bullet.rs`: projectiles: their handlers, how a frame's timers arm,
  change and use them up, and what they hit.
- `src/role.rs`: the character's skill state.
- `src/lib.rs`: the frame state of the game: pause, game time, enemy waves
  and the live projectiles.
- `app/`: the browser front end (engine entities, scene, input, rendering)
  that drives these rules.
