use vstd::prelude::*;
use crate::config::{Config, MAX_EXTENT};

verus! {

/// Largest velocity magnitude a player in play can hold; no in-bounds move is faster.
pub const VELOCITY_LIMIT: i64 = 10000;

/// Largest velocity magnitude a player can end a run with: one step of
/// gravity on top of `VELOCITY_LIMIT`.
pub const END_VELOCITY_LIMIT: i64 = 4294967305000;

/// The screen the game is on.
#[derive(Clone, Copy, Debug, PartialEq, Eq, Structural)]
pub enum GameMode {
    Menu,
    Playing,
    Ended,
}

/// One discrete input event of a tick.
#[derive(Clone, Copy, Debug, PartialEq, Eq, Structural)]
pub enum Input {
    Idle,
    Start,
    Flap,
    Restart,
    Quit,
}

/// The keys a host reports.
#[derive(Clone, Copy, Debug, PartialEq, Eq, Structural)]
pub enum Key {
    Space,
    R,
    Escape,
    Other,
}

/// The player: a fixed column, a row and a vertical velocity (rows per unit time).
#[derive(Clone, Copy, Debug, PartialEq, Eq)]
pub struct Player {
    pub x: i32,
    pub y: i32,
    pub velocity: i64,
}

/// An obstacle: a one-column wall with a gap around `gap_center`.
#[derive(Clone, Copy, Debug, PartialEq, Eq)]
pub struct Obstacle {
    pub x: i64,
    pub gap_center: i32,
    /// Set once the obstacle has passed the player's column.
    pub scored: bool,
}

/// What a tick hands back to the host.
#[derive(Debug, PartialEq, Eq)]
pub enum Frame {
    /// Draw these commands and go on.
    Draw(Vec<crate::render::Draw>),
    /// Stop the loop; nothing more is drawn.
    Exit,
}

/// The abstract state of a game.
pub struct GameView {
    pub config: Config,
    pub mode: GameMode,
    pub player: Option<Player>,
    pub obstacles: Seq<Obstacle>,
    pub score: int,
    pub since_spawn: int,
}

impl Player {
    /// A player at rest at the given position.
    pub fn new(x: i32, y: i32) -> (r: Player)
        ensures
            r == (Player { x, y, velocity: 0 }),
    {
        Player { x, y, velocity: 0 }
    }
}

// ---------------------------------------------------------------------------
// The rules, as spec functions over the abstract state.

/// The velocity after one step: a flap sets the impulse, otherwise gravity accumulates.
pub open spec fn next_velocity(cfg: Config, v: int, flap: bool, dt: int) -> int {
    if flap {
        cfg.flap_impulse as int
    } else {
        v + cfg.gravity * dt
    }
}

/// The row the player would reach in one step, before clamping.
pub open spec fn next_row(cfg: Config, p: Player, flap: bool, dt: int) -> int {
    p.y + next_velocity(cfg, p.velocity as int, flap, dt) * dt
}

pub open spec fn out_of_bounds(cfg: Config, y: int) -> bool {
    y < 0 || y >= cfg.screen_height
}

/// The nearest screen row.
pub open spec fn clamp_row(cfg: Config, y: int) -> int {
    if y < 0 {
        0
    } else if y >= cfg.screen_height {
        cfg.screen_height - 1
    } else {
        y
    }
}

/// The player after an in-bounds step.
pub open spec fn moved_player(cfg: Config, p: Player, flap: bool, dt: int) -> Player {
    Player {
        x: p.x,
        y: next_row(cfg, p, flap, dt) as i32,
        velocity: next_velocity(cfg, p.velocity as int, flap, dt) as i64,
    }
}

/// The player frozen where a run ended: clamped to the screen, with the
/// velocity of its last step.
pub open spec fn frozen_player(cfg: Config, p: Player, flap: bool, dt: int) -> Player {
    Player {
        x: p.x,
        y: clamp_row(cfg, next_row(cfg, p, flap, dt)) as i32,
        velocity: next_velocity(cfg, p.velocity as int, flap, dt) as i64,
    }
}

/// Column of an obstacle after scrolling for `dt`.
pub open spec fn scrolled_x(cfg: Config, o: Obstacle, dt: int) -> int {
    o.x - cfg.scroll_speed * dt
}

/// An obstacle after scrolling; it is marked scored once left of the player.
pub open spec fn advanced(cfg: Config, o: Obstacle, dt: int) -> Obstacle {
    Obstacle {
        x: scrolled_x(cfg, o, dt) as i64,
        gap_center: o.gap_center,
        scored: o.scored || scrolled_x(cfg, o, dt) < cfg.player_x,
    }
}

/// The obstacles after scrolling, without those that left the screen.
pub open spec fn scrolled(cfg: Config, obs: Seq<Obstacle>, dt: int) -> Seq<Obstacle>
    decreases obs.len(),
{
    if obs.len() == 0 {
        Seq::empty()
    } else {
        let rest = scrolled(cfg, obs.drop_last(), dt);
        if scrolled_x(cfg, obs.last(), dt) >= 0 {
            rest.push(advanced(cfg, obs.last(), dt))
        } else {
            rest
        }
    }
}

/// The number of unscored obstacles that are left of the player after scrolling.
pub open spec fn crossings(cfg: Config, obs: Seq<Obstacle>, dt: int) -> int
    decreases obs.len(),
{
    if obs.len() == 0 {
        0
    } else {
        crossings(cfg, obs.drop_last(), dt) + if !obs.last().scored && scrolled_x(
            cfg,
            obs.last(),
            dt,
        ) < cfg.player_x {
            1int
        } else {
            0int
        }
    }
}

/// `a + b`, saturating at the largest `u64`.
pub open spec fn saturating_sum(a: int, b: int) -> int {
    if a + b > u64::MAX {
        u64::MAX as int
    } else {
        a + b
    }
}

/// The gap center a roll of the host's random number picks.
pub open spec fn gap_center_of(cfg: Config, roll: int) -> int {
    cfg.gap_center_min + roll % (cfg.gap_center_max - cfg.gap_center_min + 1)
}

/// A new obstacle at the right edge of the screen.
pub open spec fn spawned(cfg: Config, roll: int) -> Obstacle {
    Obstacle {
        x: (cfg.screen_width - 1) as i64,
        gap_center: gap_center_of(cfg, roll) as i32,
        scored: false,
    }
}

/// Row `y` is outside the obstacle's gap.
pub open spec fn blocks(cfg: Config, o: Obstacle, y: int) -> bool {
    y < o.gap_center - cfg.gap_size / 2 || y > o.gap_center + cfg.gap_size / 2
}

/// An obstacle in the player's column blocks row `y`.
pub open spec fn hits_obstacle(cfg: Config, obs: Seq<Obstacle>, y: int) -> bool {
    exists|i: int| 0 <= i < obs.len() && obs[i].x == cfg.player_x && #[trigger] blocks(cfg, obs[i], y)
}

/// The state a run starts in.
pub open spec fn started(s: GameView) -> GameView {
    GameView {
        config: s.config,
        mode: GameMode::Playing,
        player: Some(Player { x: s.config.player_x, y: s.config.player_start_y, velocity: 0 }),
        obstacles: Seq::empty(),
        score: 0,
        since_spawn: 0,
    }
}

/// The obstacles after scrolling and, where the spacing is reached, a spawn.
pub open spec fn next_obstacles(s: GameView, dt: int, roll: int) -> Seq<Obstacle> {
    let cfg = s.config;
    let moved = scrolled(cfg, s.obstacles, dt);
    if s.since_spawn + cfg.scroll_speed * dt > cfg.spawn_spacing {
        moved.push(spawned(cfg, roll))
    } else {
        moved
    }
}

/// The scrolled distance since the last spawn, after this step.
pub open spec fn next_since_spawn(s: GameView, dt: int) -> int {
    let d = s.since_spawn + s.config.scroll_speed * dt;
    if d > s.config.spawn_spacing {
        0
    } else {
        d
    }
}

/// The step ends the run: the player leaves the screen or hits a wall.
pub open spec fn collides(s: GameView, p: Player, flap: bool, dt: int, roll: int) -> bool {
    let y = next_row(s.config, p, flap, dt);
    out_of_bounds(s.config, y) || hits_obstacle(s.config, next_obstacles(s, dt, roll), y)
}

/// One step of play.
pub open spec fn play_step(s: GameView, flap: bool, dt: int, roll: int) -> GameView {
    let cfg = s.config;
    let p = s.player.unwrap();
    let score = saturating_sum(s.score, crossings(cfg, s.obstacles, dt));
    if collides(s, p, flap, dt, roll) {
        GameView {
            config: cfg,
            mode: GameMode::Ended,
            player: Some(frozen_player(cfg, p, flap, dt)),
            obstacles: Seq::empty(),
            score,
            since_spawn: 0,
        }
    } else {
        GameView {
            config: cfg,
            mode: GameMode::Playing,
            player: Some(moved_player(cfg, p, flap, dt)),
            obstacles: next_obstacles(s, dt, roll),
            score,
            since_spawn: next_since_spawn(s, dt),
        }
    }
}

/// The state after a tick with this input, `dt` time units, and a random roll.
pub open spec fn next_state(s: GameView, input: Input, dt: int, roll: int) -> GameView {
    if input == Input::Quit {
        s
    } else {
        match s.mode {
            GameMode::Menu => if input == Input::Start {
                started(s)
            } else {
                s
            },
            GameMode::Playing => play_step(s, input == Input::Flap, dt, roll),
            GameMode::Ended => if input == Input::Restart {
                GameView { mode: GameMode::Menu, player: None, obstacles: Seq::empty(), ..s }
            } else {
                s
            },
        }
    }
}

/// An obstacle on screen, scored exactly when left of the player.
pub open spec fn obstacle_ok(cfg: Config, o: Obstacle) -> bool {
    &&& 0 <= o.x < cfg.screen_width
    &&& cfg.gap_center_min <= o.gap_center <= cfg.gap_center_max
    &&& o.scored == (o.x < cfg.player_x)
}

/// The invariant of a game state.
pub open spec fn state_ok(s: GameView) -> bool {
    let cfg = s.config;
    &&& cfg.wf()
    &&& (s.player is Some <==> s.mode != GameMode::Menu)
    &&& (s.mode != GameMode::Playing ==> s.obstacles.len() == 0)
    &&& 0 <= s.score <= u64::MAX
    &&& 0 <= s.since_spawn <= cfg.spawn_spacing
    &&& (s.player matches Some(p) ==> {
        &&& p.x == cfg.player_x
        &&& 0 <= p.y < cfg.screen_height
        &&& -END_VELOCITY_LIMIT <= p.velocity <= END_VELOCITY_LIMIT
        &&& s.mode == GameMode::Playing ==> -VELOCITY_LIMIT <= p.velocity <= VELOCITY_LIMIT
    })
    &&& forall|i: int| 0 <= i < s.obstacles.len() ==> #[trigger] obstacle_ok(cfg, s.obstacles[i])
    &&& spaced(cfg, s.obstacles, s.since_spawn)
}

/// Obstacles in order of column, more than the spawn spacing apart, and each
/// at least the distance scrolled since the last spawn left of the right edge.
pub open spec fn spaced(cfg: Config, obs: Seq<Obstacle>, since: int) -> bool {
    &&& forall|i: int, j: int|
        #![trigger obs[i], obs[j]]
        0 <= i < j < obs.len() ==> obs[i].x + cfg.spawn_spacing < obs[j].x
    &&& forall|i: int| 0 <= i < obs.len() ==> #[trigger] obs[i].x + since < cfg.screen_width
}

proof fn lemma_scrolled_below(cfg: Config, obs: Seq<Obstacle>, dt: int, b: int)
    requires
        cfg.wf(),
        0 <= dt,
        forall|k: int| 0 <= k < obs.len() ==> #[trigger] obs[k].x < b,
    ensures
        forall|i: int|
            0 <= i < scrolled(cfg, obs, dt).len() ==> #[trigger] scrolled(cfg, obs, dt)[i].x < b
                - cfg.scroll_speed * dt,
    decreases obs.len(),
{
    if obs.len() > 0 {
        let init = obs.drop_last();
        assert forall|k: int| 0 <= k < init.len() implies #[trigger] init[k].x < b by {
            assert(init[k] == obs[k]);
        }
        lemma_scrolled_below(cfg, init, dt, b);
        assert(obs[obs.len() - 1].x < b);
        let rest = scrolled(cfg, init, dt);
        let whole = scrolled(cfg, obs, dt);
        if scrolled_x(cfg, obs.last(), dt) >= 0 {
            assert(whole == rest.push(advanced(cfg, obs.last(), dt)));
            assert forall|i: int| 0 <= i < whole.len() implies #[trigger] whole[i].x < b
                - cfg.scroll_speed * dt by {
                if i < rest.len() {
                    assert(whole[i] == rest[i]);
                }
            }
        }
    }
}

proof fn lemma_scrolled_apart(cfg: Config, obs: Seq<Obstacle>, dt: int)
    requires
        cfg.wf(),
        0 <= dt,
        forall|i: int, j: int|
            #![trigger obs[i], obs[j]]
            0 <= i < j < obs.len() ==> obs[i].x + cfg.spawn_spacing < obs[j].x,
    ensures
        ({
            let r = scrolled(cfg, obs, dt);
            forall|i: int, j: int|
                #![trigger r[i], r[j]]
                0 <= i < j < r.len() ==> r[i].x + cfg.spawn_spacing < r[j].x
        }),
    decreases obs.len(),
{
    if obs.len() > 0 {
        let init = obs.drop_last();
        let n = obs.len() - 1;
        assert forall|i: int, j: int|
            #![trigger init[i], init[j]]
            0 <= i < j < init.len() implies init[i].x + cfg.spawn_spacing < init[j].x by {
            assert(init[i] == obs[i] && init[j] == obs[j]);
        }
        lemma_scrolled_apart(cfg, init, dt);
        let last = obs[n];
        assert forall|k: int| 0 <= k < init.len() implies #[trigger] init[k].x < last.x
            - cfg.spawn_spacing by {
            assert(init[k] == obs[k]);
        }
        lemma_scrolled_below(cfg, init, dt, last.x - cfg.spawn_spacing);
        let rest = scrolled(cfg, init, dt);
        let whole = scrolled(cfg, obs, dt);
        if scrolled_x(cfg, obs.last(), dt) >= 0 {
            assert(whole == rest.push(advanced(cfg, obs.last(), dt)));
            assert forall|i: int, j: int|
                #![trigger whole[i], whole[j]]
                0 <= i < j < whole.len() implies whole[i].x + cfg.spawn_spacing < whole[j].x by {
                assert(whole[i] == rest[i]);
                if j < rest.len() {
                    assert(whole[j] == rest[j]);
                    assert(rest[i].x + cfg.spawn_spacing < rest[j].x);
                } else {
                    assert(rest[i].x < last.x - cfg.spawn_spacing - cfg.scroll_speed * dt);
                }
            }
        }
    }
}

/// One step of play keeps the obstacles spaced.
proof fn lemma_spacing_kept(s: GameView, dt: int, roll: int)
    requires
        state_ok(s),
        s.mode == GameMode::Playing,
        0 <= dt,
        0 <= roll,
    ensures
        spaced(s.config, next_obstacles(s, dt, roll), next_since_spawn(s, dt)),
{
    let cfg = s.config;
    let d = cfg.scroll_speed * dt;
    assert(d >= 0) by (nonlinear_arith)
        requires
            cfg.scroll_speed >= 1,
            dt >= 0,
            d == cfg.scroll_speed * dt,
    ;
    lemma_scrolled_apart(cfg, s.obstacles, dt);
    assert forall|k: int| 0 <= k < s.obstacles.len() implies #[trigger] s.obstacles[k].x < cfg.screen_width
        - s.since_spawn by {}
    lemma_scrolled_below(cfg, s.obstacles, dt, cfg.screen_width - s.since_spawn);
    let moved = scrolled(cfg, s.obstacles, dt);
    let obs = next_obstacles(s, dt, roll);
    if s.since_spawn + d > cfg.spawn_spacing {
        let o = spawned(cfg, roll);
        assert(obs == moved.push(o));
        assert forall|i: int, j: int|
            #![trigger obs[i], obs[j]]
            0 <= i < j < obs.len() implies obs[i].x + cfg.spawn_spacing < obs[j].x by {
            assert(obs[i] == moved[i]);
            if j < moved.len() {
                assert(obs[j] == moved[j]);
            }
        }
        assert forall|i: int| 0 <= i < obs.len() implies #[trigger] obs[i].x + 0 < cfg.screen_width by {
            if i < moved.len() {
                assert(obs[i] == moved[i]);
            }
        }
    }
}

// ---------------------------------------------------------------------------
// The executable game.

/// The game: its mode, player, obstacles and score.
pub struct State {
    config: Config,
    mode: GameMode,
    player: Option<Player>,
    obstacles: Vec<Obstacle>,
    score: u64,
    since_spawn: i64,
}

impl View for State {
    type V = GameView;

    closed spec fn view(&self) -> GameView {
        GameView {
            config: self.config,
            mode: self.mode,
            player: self.player,
            obstacles: self.obstacles@,
            score: self.score as int,
            since_spawn: self.since_spawn as int,
        }
    }
}

/// The input a key stands for in a mode: space starts a run from the menu
/// and flaps otherwise, R restarts, escape quits.
pub open spec fn key_input(mode: GameMode, key: Option<Key>) -> Input {
    match key {
        Some(Key::Space) => if mode == GameMode::Menu {
            Input::Start
        } else {
            Input::Flap
        },
        Some(Key::R) => Input::Restart,
        Some(Key::Escape) => Input::Quit,
        _ => Input::Idle,
    }
}

proof fn lemma_mul_range(a: int, b: int, amax: int, bmax: int)
    requires
        0 <= a <= amax,
        0 <= b <= bmax,
    ensures
        0 <= a * b <= amax * bmax,
{
    assert(0 <= a * b <= amax * bmax) by (nonlinear_arith)
        requires
            0 <= a <= amax,
            0 <= b <= bmax,
    ;
}

/// Scrolls every obstacle left, drops those that left the screen, and counts
/// the unscored ones that passed the player's column.
fn scroll_obstacles(cfg: Config, obs: &Vec<Obstacle>, dt: u32) -> (r: (Vec<Obstacle>, u64))
    requires
        cfg.wf(),
        forall|i: int| 0 <= i < obs@.len() ==> #[trigger] obstacle_ok(cfg, obs@[i]),
    ensures
        r.0@ == scrolled(cfg, obs@, dt as int),
        r.1 == crossings(cfg, obs@, dt as int),
        forall|i: int| 0 <= i < r.0@.len() ==> #[trigger] obstacle_ok(cfg, r.0@[i]),
{
    proof {
        lemma_mul_range(cfg.scroll_speed as int, dt as int, 1000, u32::MAX as int);
    }
    let shift: i64 = (cfg.scroll_speed as i64) * (dt as i64);
    let mut kept: Vec<Obstacle> = Vec::new();
    let mut gained: u64 = 0;
    let mut i: usize = 0;
    while i < obs.len()
        invariant
            cfg.wf(),
            i <= obs@.len(),
            shift == cfg.scroll_speed * dt,
            0 <= shift <= 1000 * u32::MAX,
            forall|k: int| 0 <= k < obs@.len() ==> #[trigger] obstacle_ok(cfg, obs@[k]),
            kept@ == scrolled(cfg, obs@.subrange(0, i as int), dt as int),
            gained == crossings(cfg, obs@.subrange(0, i as int), dt as int),
            gained <= i,
            forall|k: int| 0 <= k < kept@.len() ==> #[trigger] obstacle_ok(cfg, kept@[k]),
        decreases obs@.len() - i,
    {
        let o = obs[i];
        assert(obstacle_ok(cfg, obs@[i as int]));
        let x: i64 = o.x - shift;
        let passed = x < cfg.player_x as i64;
        let ghost pre = obs@.subrange(0, i as int + 1);
        assert(pre.drop_last() =~= obs@.subrange(0, i as int));
        assert(pre.last() == o);
        if !o.scored && passed {
            gained = gained + 1;
        }
        if x >= 0 {
            kept.push(Obstacle { x, gap_center: o.gap_center, scored: o.scored || passed });
        }
        i = i + 1;
    }
    assert(obs@.subrange(0, obs@.len() as int) =~= obs@);
    (kept, gained)
}

/// A new obstacle at the right edge, its gap center picked by `roll`.
fn spawn(cfg: Config, roll: u32) -> (r: Obstacle)
    requires
        cfg.wf(),
    ensures
        r == spawned(cfg, roll as int),
        obstacle_ok(cfg, r),
{
    let span: u32 = (cfg.gap_center_max - cfg.gap_center_min + 1) as u32;
    let offset: u32 = roll % span;
    Obstacle {
        x: (cfg.screen_width - 1) as i64,
        gap_center: cfg.gap_center_min + offset as i32,
        scored: false,
    }
}

/// Whether a wall in the player's column blocks row `y`.
fn hits(cfg: Config, obs: &Vec<Obstacle>, y: i32) -> (r: bool)
    requires
        cfg.wf(),
        forall|i: int| 0 <= i < obs@.len() ==> #[trigger] obstacle_ok(cfg, obs@[i]),
        0 <= y < cfg.screen_height,
    ensures
        r == hits_obstacle(cfg, obs@, y as int),
{
    let half: i32 = cfg.gap_size / 2;
    let mut i: usize = 0;
    while i < obs.len()
        invariant
            cfg.wf(),
            i <= obs@.len(),
            half == cfg.gap_size / 2,
            0 <= y < cfg.screen_height,
            forall|k: int| 0 <= k < obs@.len() ==> #[trigger] obstacle_ok(cfg, obs@[k]),
            forall|k: int|
                0 <= k < i ==> !(obs@[k].x == cfg.player_x && #[trigger] blocks(cfg, obs@[k], y as int)),
        decreases obs@.len() - i,
    {
        let o = obs[i];
        assert(obstacle_ok(cfg, obs@[i as int]));
        if o.x == cfg.player_x as i64 && (y < o.gap_center - half || y > o.gap_center + half) {
            assert(blocks(cfg, obs@[i as int], y as int));
            return true;
        }
        i = i + 1;
    }
    false
}

impl State {
    /// The invariant of the game.
    pub open spec fn wf(&self) -> bool {
        state_ok(self@)
    }

    /// A game on the menu screen.
    pub fn new(config: Config) -> (r: State)
        requires
            config.wf(),
        ensures
            r.wf(),
            r@ == (GameView {
                config,
                mode: GameMode::Menu,
                player: None,
                obstacles: Seq::empty(),
                score: 0,
                since_spawn: 0,
            }),
    {
        let r = State {
            config,
            mode: GameMode::Menu,
            player: None,
            obstacles: Vec::new(),
            score: 0,
            since_spawn: 0,
        };
        assert(r@.obstacles =~= Seq::empty());
        r
    }

    pub fn config(&self) -> (r: Config)
        ensures
            r == self@.config,
    {
        self.config
    }

    pub fn mode(&self) -> (r: GameMode)
        ensures
            r == self@.mode,
    {
        self.mode
    }

    pub fn player(&self) -> (r: Option<Player>)
        ensures
            r == self@.player,
    {
        self.player
    }

    pub fn obstacles(&self) -> (r: &Vec<Obstacle>)
        ensures
            r@ == self@.obstacles,
    {
        &self.obstacles
    }

    pub fn score(&self) -> (r: u64)
        ensures
            r == self@.score,
    {
        self.score
    }

    /// The input that a key (or no key) stands for in the current mode.
    pub fn input_for_key(&self, key: Option<Key>) -> (r: Input)
        ensures
            r == key_input(self@.mode, key),
    {
        match key {
            Some(Key::Space) => if self.mode == GameMode::Menu {
                Input::Start
            } else {
                Input::Flap
            },
            Some(Key::R) => Input::Restart,
            Some(Key::Escape) => Input::Quit,
            _ => Input::Idle,
        }
    }

    /// One step of play: gravity or a flap, the move, the obstacles, the
    /// score, a spawn, and the collision check.
    pub fn update_game(&mut self, flap: bool, dt: u32, roll: u32)
        requires
            old(self).wf(),
            old(self)@.mode == GameMode::Playing,
        ensures
            final(self).wf(),
            final(self)@ == play_step(old(self)@, flap, dt as int, roll as int),
    {
        let cfg = self.config;
        let p = self.player.unwrap();
        proof {
            lemma_mul_range(cfg.gravity as int, dt as int, 1000, u32::MAX as int);
            lemma_mul_range(cfg.scroll_speed as int, dt as int, 1000, u32::MAX as int);
        }
        let v: i64 = if flap {
            cfg.flap_impulse as i64
        } else {
            p.velocity + (cfg.gravity as i64) * (dt as i64)
        };
        assert(-10000 - 1000 * u32::MAX <= v <= 10000 + 1000 * u32::MAX);
        assert(-(10000 + 1000 * u32::MAX) * u32::MAX <= v * dt <= (10000 + 1000 * u32::MAX)
            * u32::MAX) by (nonlinear_arith)
            requires
                -10000 - 1000 * u32::MAX <= v <= 10000 + 1000 * u32::MAX,
                0 <= dt <= u32::MAX,
        ;
        let row: i128 = p.y as i128 + (v as i128) * (dt as i128);
        let (mut obs, gained) = scroll_obstacles(cfg, &self.obstacles, dt);
        let score: u64 = if gained <= u64::MAX - self.score {
            self.score + gained
        } else {
            u64::MAX
        };
        let dist: i64 = self.since_spawn + (cfg.scroll_speed as i64) * (dt as i64);
        let since: i64 = if dist > cfg.spawn_spacing as i64 {
            let o = spawn(cfg, roll);
            obs.push(o);
            0
        } else {
            dist
        };
        assert(obs@ == next_obstacles(old(self)@, dt as int, roll as int));
        proof {
            lemma_spacing_kept(old(self)@, dt as int, roll as int);
        }
        let out = row < 0 || row >= cfg.screen_height as i128;
        let hit = !out && hits(cfg, &obs, row as i32);
        if out || hit {
            let y: i32 = if row < 0 {
                0
            } else if row >= cfg.screen_height as i128 {
                cfg.screen_height - 1
            } else {
                row as i32
            };
            self.mode = GameMode::Ended;
            self.player = Some(Player { x: p.x, y, velocity: v });
            self.obstacles = Vec::new();
            self.score = score;
            self.since_spawn = 0;
            assert(self@.obstacles =~= Seq::empty());
        } else {
            if !flap && dt == 0 {
                assert(cfg.gravity * dt == 0) by (nonlinear_arith)
                    requires
                        dt == 0,
                ;
                assert(v == p.velocity);
            }
            if !flap && dt >= 1 {
                assert(-10000 <= v <= 10000) by (nonlinear_arith)
                    requires
                        dt >= 1,
                        -10000 < v * dt < 10000,
                ;
            }
            self.player = Some(Player { x: p.x, y: row as i32, velocity: v });
            self.obstacles = obs;
            self.score = score;
            self.since_spawn = since;
        }
    }

    /// Begins a run: the player at its start, no obstacles, score zero.
    fn start_run(&mut self)
        requires
            old(self).wf(),
        ensures
            final(self).wf(),
            final(self)@ == started(old(self)@),
    {
        self.mode = GameMode::Playing;
        self.player = Some(Player::new(self.config.player_x, self.config.player_start_y));
        self.obstacles = Vec::new();
        self.score = 0;
        self.since_spawn = 0;
        assert(self@.obstacles =~= Seq::empty());
    }

    /// Ends the shown run and goes back to the menu.
    fn restart(&mut self)
        requires
            old(self).wf(),
            old(self)@.mode == GameMode::Ended,
        ensures
            final(self).wf(),
            final(self)@ == (GameView {
                mode: GameMode::Menu,
                player: None,
                obstacles: Seq::empty(),
                ..old(self)@
            }),
    {
        self.mode = GameMode::Menu;
        self.player = None;
        self.obstacles = Vec::new();
        assert(self@.obstacles =~= Seq::empty());
    }

    /// One frame: consume the input, advance a run in play by `dt` time units
    /// (`roll` places a spawned gap), and describe the screen. Quit draws
    /// nothing and leaves the state as it is.
    pub fn tick(&mut self, input: Input, dt: u32, roll: u32) -> (r: Frame)
        requires
            old(self).wf(),
        ensures
            final(self).wf(),
            final(self)@ == next_state(old(self)@, input, dt as int, roll as int),
            (r is Exit) == (input == Input::Quit),
            r matches Frame::Draw(cmds) ==> cmds@ == crate::render::screen(final(self)@),
    {
        if input == Input::Quit {
            return Frame::Exit;
        }
        match self.mode {
            GameMode::Menu => {
                if input == Input::Start {
                    self.start_run();
                }
            },
            GameMode::Playing => self.update_game(input == Input::Flap, dt, roll),
            GameMode::Ended => {
                if input == Input::Restart {
                    self.restart();
                }
            },
        }
        Frame::Draw(self.render())
    }
}

} // verus!
