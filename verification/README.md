# centurion

The rules of *Centurion: 100 Steps*, a tactical roguelike on an 8×8 grid,
as a Verus library with its contracts and laws proved.

- `src/` — the verified library: room layouts (`room`), connectivity search
  (`reach`), procedural generation (`procgen`), enemies (`enemies`), player
  moves (`tactics`), combat (`combat`), the state machine (`state`), resting
  (`rest`), statistics and scores (`config`, `dead_screen`, `hud`), spawning
  (`spawn`) and run start/restart (`run`). The laws over whole rooms and over
  the game's rules stand in `room_laws` and `game_laws`.
- `tests/` — scenario tests of the library.
- `app/` — the Bevy game around the library: entities, rendering, input and UI.

## Generation seeds

Every random choice of a room is drawn from a sub-seed of the run seed:

    sub_seed(run, floor, salt) = run * 6364136223846793005 + floor * 256 + salt   (mod 2^64)

The floor is spread by 256 so that, within one run, every (floor, salt) pair
with a salt below 256 gets its own sub-seed (`law_sub_seed_unique_in_run`);
the generation uses salts 0 to 203. Adding the bare floor number instead
would let floor f with salt s + 1 share its sub-seed with floor f + 1 with
salt s. The rooms of a run seed are the ones this formula gives.

The generated rooms keep every pillar and every enemy and item that their
floor draws: a room holds `sub_seed % 4` pillars, `2 + sub_seed % 3`
enemies and `1 + sub_seed % 2` items, each with its own salt
(`law_pillars_all_placed`, `law_enemy_count_met`, `law_item_count_met`).
