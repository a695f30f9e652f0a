use vstd::prelude::*;
use crate::config::Config;
use crate::game::{
    advanced, clamp_row, collides, frozen_player, moved_player, next_row, next_state, next_velocity,
    hits_obstacle, next_obstacles, obstacle_ok, out_of_bounds, saturating_sum, crossings, scrolled, scrolled_x, spawned,
    state_ok, GameMode, GameView, Input, Obstacle, Player,
};

verus! {

/// The state after a sequence of ticks, each given as (input, dt, roll).
pub open spec fn run(s: GameView, steps: Seq<(Input, int, int)>) -> GameView
    decreases steps.len(),
{
    if steps.len() == 0 {
        s
    } else {
        let t = steps.last();
        next_state(run(s, steps.drop_last()), t.0, t.1, t.2)
    }
}

/// `0 + 1 + ... + n`.
pub open spec fn triangle(n: nat) -> int
    decreases n,
{
    if n == 0 {
        0
    } else {
        triangle((n - 1) as nat) + n
    }
}

/// The player after `n` steps without a flap; once it leaves the screen it
/// stays frozen. The flag tells whether that has happened.
pub open spec fn fall(cfg: Config, p: Player, dt: int, n: nat) -> (Player, bool)
    decreases n,
{
    if n == 0 {
        (p, false)
    } else {
        let (q, gone) = fall(cfg, p, dt, (n - 1) as nat);
        if gone {
            (q, true)
        } else if out_of_bounds(cfg, next_row(cfg, q, false, dt)) {
            (frozen_player(cfg, q, false, dt), true)
        } else {
            (moved_player(cfg, q, false, dt), false)
        }
    }
}

/// The number of obstacles whose leading edge goes from the player's column
/// or right of it to left of it when scrolling for `dt`.
pub open spec fn passing(cfg: Config, obs: Seq<Obstacle>, dt: int) -> int
    decreases obs.len(),
{
    if obs.len() == 0 {
        0
    } else {
        passing(cfg, obs.drop_last(), dt) + if obs.last().x >= cfg.player_x && scrolled_x(
            cfg,
            obs.last(),
            dt,
        ) < cfg.player_x {
            1int
        } else {
            0int
        }
    }
}

/// While the menu shows, no tick but a start changes anything: there is no
/// player and no obstacle, and the state is exactly what it was.
pub proof fn lemma_menu_is_idle(s: GameView, steps: Seq<(Input, int, int)>)
    requires
        state_ok(s),
        s.mode == GameMode::Menu,
        forall|i: int| 0 <= i < steps.len() ==> (#[trigger] steps[i]).0 != Input::Start,
    ensures
        run(s, steps) == s,
        run(s, steps).player is None,
        run(s, steps).obstacles.len() == 0,
    decreases steps.len(),
{
    if steps.len() > 0 {
        let init = steps.drop_last();
        assert forall|i: int| 0 <= i < init.len() implies (#[trigger] init[i]).0 != Input::Start by {
            assert(init[i] == steps[i]);
        }
        lemma_menu_is_idle(s, init);
        assert(steps[steps.len() - 1].0 != Input::Start);
    }
}

/// On the menu, a start begins a run.
pub proof fn lemma_menu_start(s: GameView, dt: int, roll: int)
    requires
        state_ok(s),
        s.mode == GameMode::Menu,
    ensures
        next_state(s, Input::Start, dt, roll).mode == GameMode::Playing,
{
}

/// A run starts with score zero, no obstacles and the player at rest at its
/// start, whatever the score of the run before; also right after a restart.
pub proof fn lemma_start_resets(s: GameView, dt: int, roll: int, dt2: int, roll2: int)
    requires
        state_ok(s),
        s.mode != GameMode::Playing,
    ensures
        ({
            let back = if s.mode == GameMode::Ended {
                next_state(s, Input::Restart, dt2, roll2)
            } else {
                s
            };
            let t = next_state(back, Input::Start, dt, roll);
            &&& t.mode == GameMode::Playing
            &&& t.score == 0
            &&& t.obstacles.len() == 0
            &&& t.player == Some(
                Player { x: s.config.player_x, y: s.config.player_start_y, velocity: 0 },
            )
        }),
{
}

proof fn lemma_fall_shape(cfg: Config, p: Player, dt: int, n: nat)
    requires
        cfg.wf(),
        0 <= p.y < cfg.screen_height,
        p.velocity == 0,
        0 <= dt <= u32::MAX,
    ensures
        ({
            let (q, gone) = fall(cfg, p, dt, n);
            let closed = p.y + cfg.gravity * dt * dt * triangle(n);
            &&& q.x == p.x
            &&& !gone ==> q.y == closed && q.y < cfg.screen_height && q.velocity == cfg.gravity
                * dt * n
            &&& gone ==> q.y == cfg.screen_height - 1 && closed >= cfg.screen_height
        }),
    decreases n,
{
    if n > 0 {
        let m = (n - 1) as nat;
        lemma_fall_shape(cfg, p, dt, m);
        let (q, gone) = fall(cfg, p, dt, m);
        let g = cfg.gravity as int;
        let step = g * dt * dt;
        assert(step >= 0) by (nonlinear_arith)
            requires
                g > 0,
                step == g * dt * dt,
        ;
        assert(step * triangle(n) == step * triangle(m) + step * n) by (nonlinear_arith)
            requires
                triangle(n) == triangle(m) + n,
        ;
        assert(step * n >= 0) by (nonlinear_arith)
            requires
                step >= 0,
        ;
        if !gone {
            let v = q.velocity as int;
            let nv = next_velocity(cfg, v, false, dt);
            assert(nv == g * dt * n) by (nonlinear_arith)
                requires
                    v == g * dt * m,
                    nv == v + g * dt,
                    n == m + 1,
            ;
            assert(nv * dt == step * n) by (nonlinear_arith)
                requires
                    nv == g * dt * n,
                    step == g * dt * dt,
            ;
            let raw = next_row(cfg, q, false, dt);
            assert(raw == p.y + step * triangle(n));
            assert(raw >= 0) by (nonlinear_arith)
                requires
                    raw == p.y + step * triangle(n),
                    step * triangle(n) == step * triangle(m) + step * n,
                    q.y == p.y + step * triangle(m),
                    q.y >= 0,
                    step * n >= 0,
            ;
            if !out_of_bounds(cfg, raw) {
                if dt >= 1 {
                    assert(0 <= nv < 10000) by (nonlinear_arith)
                        requires
                            dt >= 1,
                            nv * dt == step * n,
                            step * n >= 0,
                            nv == g * dt * n,
                            g > 0,
                            step * n < 10000,
                    ;
                } else {
                    assert(nv == 0) by (nonlinear_arith)
                        requires
                            nv == g * dt * n,
                            dt == 0,
                    ;
                }
            }
        } else {
            assert(p.y + step * triangle(n) >= cfg.screen_height);
        }
    }
}

/// Free fall from rest: after `n` steps of `fall` (by `lemma_idle_run_falls`,
/// `n` ticks without input in which no wall blocks the player) the player's
/// row is the start row plus `gravity * dt^2 * n * (n + 1) / 2`, clamped to
/// the screen.
pub proof fn lemma_free_fall(cfg: Config, p: Player, dt: int, n: nat)
    requires
        cfg.wf(),
        0 <= p.y < cfg.screen_height,
        p.velocity == 0,
        0 <= dt <= u32::MAX,
    ensures
        2 * triangle(n) == n * (n + 1),
        fall(cfg, p, dt, n).0.y == clamp_row(cfg, p.y + cfg.gravity * dt * dt * triangle(n)),
    decreases n,
{
    lemma_fall_shape(cfg, p, dt, n);
    if n > 0 {
        lemma_free_fall(cfg, p, dt, (n - 1) as nat);
        assert(2 * triangle(n) == n * (n + 1)) by (nonlinear_arith)
            requires
                2 * triangle((n - 1) as nat) == (n - 1) * n,
                triangle(n) == triangle((n - 1) as nat) + n,
        ;
    }
}

/// A flap sets the velocity to the impulse, whatever it was: the player moves
/// by `flap_impulse * dt` and, if the run goes on, keeps that velocity.
pub proof fn lemma_flap_overrides(s: GameView, dt: int, roll: int)
    requires
        state_ok(s),
        s.mode == GameMode::Playing,
        0 <= dt,
    ensures
        ({
            let p = s.player.unwrap();
            let t = next_state(s, Input::Flap, dt, roll);
            &&& next_velocity(s.config, p.velocity as int, true, dt) == s.config.flap_impulse
            &&& t.mode == GameMode::Playing ==> t.player.unwrap().velocity == s.config.flap_impulse
                && t.player.unwrap().y == p.y + s.config.flap_impulse * dt
        }),
{
}

proof fn lemma_scrolled(cfg: Config, obs: Seq<Obstacle>, dt: int)
    requires
        cfg.wf(),
        0 <= dt <= u32::MAX,
        forall|i: int| 0 <= i < obs.len() ==> #[trigger] obstacle_ok(cfg, obs[i]),
    ensures
        forall|i: int|
            0 <= i < scrolled(cfg, obs, dt).len() ==> #[trigger] obstacle_ok(
                cfg,
                scrolled(cfg, obs, dt)[i],
            ),
        crossings(cfg, obs, dt) == passing(cfg, obs, dt),
    decreases obs.len(),
{
    if obs.len() > 0 {
        let init = obs.drop_last();
        assert forall|i: int| 0 <= i < init.len() implies #[trigger] obstacle_ok(cfg, init[i]) by {
            assert(init[i] == obs[i]);
        }
        lemma_scrolled(cfg, init, dt);
        assert(obstacle_ok(cfg, obs[obs.len() - 1]));
        assert(cfg.scroll_speed * dt >= 0) by (nonlinear_arith)
            requires
                cfg.scroll_speed >= 1,
                dt >= 0,
        ;
        let rest = scrolled(cfg, init, dt);
        let whole = scrolled(cfg, obs, dt);
        let o = advanced(cfg, obs.last(), dt);
        if scrolled_x(cfg, obs.last(), dt) >= 0 {
            assert(obstacle_ok(cfg, o));
            assert(whole == rest.push(o));
            assert forall|i: int| 0 <= i < whole.len() implies #[trigger] obstacle_ok(cfg, whole[i]) by {
                if i < rest.len() {
                    assert(whole[i] == rest[i]);
                }
            }
        }
    }
}

/// Obstacles that are all scored add nothing to the score.
pub proof fn lemma_scored_count_nothing(cfg: Config, obs: Seq<Obstacle>, dt: int)
    requires
        forall|i: int| 0 <= i < obs.len() ==> (#[trigger] obs[i]).scored,
    ensures
        crossings(cfg, obs, dt) == 0,
    decreases obs.len(),
{
    if obs.len() > 0 {
        let init = obs.drop_last();
        assert forall|i: int| 0 <= i < init.len() implies (#[trigger] init[i]).scored by {
            assert(init[i] == obs[i]);
        }
        lemma_scored_count_nothing(cfg, init, dt);
        assert(obs[obs.len() - 1].scored);
    }
}

/// In play, the score grows by one for each obstacle whose leading edge passes
/// the player's column in this tick. Every obstacle left of the column is then
/// marked scored, and scored obstacles add nothing later.
pub proof fn lemma_score_counts_passing(s: GameView, input: Input, dt: int, roll: int)
    requires
        state_ok(s),
        s.mode == GameMode::Playing,
        input != Input::Quit,
        0 <= dt <= u32::MAX,
        0 <= roll,
    ensures
        ({
            let t = next_state(s, input, dt, roll);
            &&& t.score == saturating_sum(s.score, passing(s.config, s.obstacles, dt))
            &&& forall|i: int|
                0 <= i < t.obstacles.len() ==> (#[trigger] t.obstacles[i]).scored == (
                t.obstacles[i].x < s.config.player_x)
        }),
{
    let cfg = s.config;
    lemma_scrolled(cfg, s.obstacles, dt);
    let t = next_state(s, input, dt, roll);
    let moved = scrolled(cfg, s.obstacles, dt);
    assert(obstacle_ok(cfg, spawned(cfg, roll)));
    assert forall|i: int| 0 <= i < t.obstacles.len() implies (#[trigger] t.obstacles[i]).scored == (
    t.obstacles[i].x < cfg.player_x) by {
        if i < moved.len() {
            assert(obstacle_ok(cfg, moved[i]));
        }
    }
}

/// A collision in play ends the run, with the player frozen where it was
/// clamped to the screen.
pub proof fn lemma_collision_ends(s: GameView, input: Input, dt: int, roll: int)
    requires
        state_ok(s),
        s.mode == GameMode::Playing,
        input != Input::Quit,
        collides(s, s.player.unwrap(), input == Input::Flap, dt, roll),
    ensures
        next_state(s, input, dt, roll).mode == GameMode::Ended,
        next_state(s, input, dt, roll).player == Some(
            frozen_player(s.config, s.player.unwrap(), input == Input::Flap, dt),
        ),
{
}

/// A run ends only from play, and only by a collision.
pub proof fn lemma_ended_only_by_collision(s: GameView, input: Input, dt: int, roll: int)
    requires
        state_ok(s),
        s.mode != GameMode::Ended,
        next_state(s, input, dt, roll).mode == GameMode::Ended,
    ensures
        s.mode == GameMode::Playing,
        input != Input::Quit,
        collides(s, s.player.unwrap(), input == Input::Flap, dt, roll),
{
}

/// Once a run has ended, ticks without a restart change nothing: the mode
/// stays ended and the player stays where it froze.
pub proof fn lemma_ended_is_frozen(s: GameView, steps: Seq<(Input, int, int)>)
    requires
        state_ok(s),
        s.mode == GameMode::Ended,
        forall|i: int| 0 <= i < steps.len() ==> (#[trigger] steps[i]).0 != Input::Restart,
    ensures
        run(s, steps) == s,
    decreases steps.len(),
{
    if steps.len() > 0 {
        let init = steps.drop_last();
        assert forall|i: int| 0 <= i < init.len() implies (#[trigger] init[i]).0 != Input::Restart by {
            assert(init[i] == steps[i]);
        }
        lemma_ended_is_frozen(s, init);
        assert(steps[steps.len() - 1].0 != Input::Restart);
    }
}

/// A restart from the end screen goes back to the menu with no player and
/// no obstacles.
pub proof fn lemma_restart_clears(s: GameView, dt: int, roll: int)
    requires
        state_ok(s),
        s.mode == GameMode::Ended,
    ensures
        next_state(s, Input::Restart, dt, roll).mode == GameMode::Menu,
        next_state(s, Input::Restart, dt, roll).player is None,
        next_state(s, Input::Restart, dt, roll).obstacles.len() == 0,
{
}

proof fn lemma_none_passing(cfg: Config, obs: Seq<Obstacle>, dt: int)
    requires
        forall|k: int| 0 <= k < obs.len() ==> #[trigger] obs[k].x < cfg.player_x,
    ensures
        passing(cfg, obs, dt) == 0,
    decreases obs.len(),
{
    if obs.len() > 0 {
        let init = obs.drop_last();
        assert forall|k: int| 0 <= k < init.len() implies #[trigger] init[k].x < cfg.player_x by {
            assert(init[k] == obs[k]);
        }
        lemma_none_passing(cfg, init, dt);
        assert(obs[obs.len() - 1].x < cfg.player_x);
    }
}

proof fn lemma_passing_at_most_one(cfg: Config, obs: Seq<Obstacle>, dt: int)
    requires
        cfg.scroll_speed * dt <= cfg.spawn_spacing,
        forall|i: int, j: int|
            #![trigger obs[i], obs[j]]
            0 <= i < j < obs.len() ==> obs[i].x + cfg.spawn_spacing < obs[j].x,
    ensures
        0 <= passing(cfg, obs, dt) <= 1,
    decreases obs.len(),
{
    if obs.len() > 0 {
        let init = obs.drop_last();
        let n = obs.len() - 1;
        assert forall|i: int, j: int|
            #![trigger init[i], init[j]]
            0 <= i < j < init.len() implies init[i].x + cfg.spawn_spacing < init[j].x by {
            assert(init[i] == obs[i] && init[j] == obs[j]);
        }
        lemma_passing_at_most_one(cfg, init, dt);
        let last = obs[n];
        if last.x >= cfg.player_x && scrolled_x(cfg, last, dt) < cfg.player_x {
            assert forall|k: int| 0 <= k < init.len() implies #[trigger] init[k].x < cfg.player_x by {
                assert(init[k] == obs[k]);
                assert(obs[k].x + cfg.spawn_spacing < obs[n].x);
            }
            lemma_none_passing(cfg, init, dt);
        }
    }
}

/// Where one tick scrolls no farther than the spawn spacing, the score grows
/// by at most one in that tick.
pub proof fn lemma_score_at_most_one(s: GameView, input: Input, dt: int, roll: int)
    requires
        state_ok(s),
        s.mode == GameMode::Playing,
        input != Input::Quit,
        0 <= dt <= u32::MAX,
        0 <= roll,
        s.config.scroll_speed * dt <= s.config.spawn_spacing,
    ensures
        s.score <= next_state(s, input, dt, roll).score <= s.score + 1,
{
    lemma_score_counts_passing(s, input, dt, roll);
    lemma_passing_at_most_one(s.config, s.obstacles, dt);
}

/// No tick of the run has a wall block the row the player moves to.
pub open spec fn unblocked(s: GameView, steps: Seq<(Input, int, int)>) -> bool
    decreases steps.len(),
{
    if steps.len() == 0 {
        true
    } else {
        let prev = run(s, steps.drop_last());
        let t = steps.last();
        &&& unblocked(s, steps.drop_last())
        &&& prev.mode == GameMode::Playing ==> !hits_obstacle(
            prev.config,
            next_obstacles(prev, t.1, t.2),
            next_row(prev.config, prev.player.unwrap(), t.0 == Input::Flap, t.1),
        )
    }
}

/// A run of ticks without input, all of length `dt`, in which no wall blocks
/// the player, moves the player exactly as `fall` does: the run ends exactly
/// when `fall` leaves the screen.
pub proof fn lemma_idle_run_falls(s: GameView, steps: Seq<(Input, int, int)>, dt: int)
    requires
        state_ok(s),
        s.mode == GameMode::Playing,
        forall|i: int| 0 <= i < steps.len() ==> (#[trigger] steps[i]).0 == Input::Idle && steps[i].1 == dt,
        unblocked(s, steps),
    ensures
        ({
            let (q, gone) = fall(s.config, s.player.unwrap(), dt, steps.len());
            &&& run(s, steps).config == s.config
            &&& run(s, steps).player == Some(q)
            &&& run(s, steps).mode == if gone {
                GameMode::Ended
            } else {
                GameMode::Playing
            }
        }),
    decreases steps.len(),
{
    if steps.len() > 0 {
        let init = steps.drop_last();
        assert forall|i: int| 0 <= i < init.len() implies (#[trigger] init[i]).0 == Input::Idle
            && init[i].1 == dt by {
            assert(init[i] == steps[i]);
        }
        lemma_idle_run_falls(s, init, dt);
        assert(steps[steps.len() - 1].0 == Input::Idle && steps[steps.len() - 1].1 == dt);
    }
}

} // verus!
