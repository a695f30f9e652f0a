use flappy_game::config::Config;
use flappy_game::game::{Frame, GameMode, Input, Key, Player, State};
use flappy_game::render::{Draw, Message, PLAYER_GLYPH, WALL_GLYPH};

fn draws(f: Frame) -> Vec<Draw> {
    match f {
        Frame::Draw(cmds) => cmds,
        Frame::Exit => panic!("unexpected exit"),
    }
}

fn started(config: Config) -> State {
    let mut s = State::new(config);
    s.tick(Input::Start, 1, 0);
    s
}

/// Keeps the player inside rows about the start by flapping at or below it.
fn hover(s: &mut State, roll: u32) -> Frame {
    let p = s.player().unwrap();
    let input = if p.y >= s.config().player_start_y { Input::Flap } else { Input::Idle };
    s.tick(input, 1, roll)
}

/// A narrow screen whose gaps span every row: obstacles pass without collisions.
fn open_config() -> Config {
    Config {
        screen_width: 12,
        screen_height: 50,
        player_x: 2,
        player_start_y: 25,
        gravity: 1,
        flap_impulse: -3,
        scroll_speed: 1,
        spawn_spacing: 3,
        gap_size: 50,
        gap_center_min: 25,
        gap_center_max: 25,
    }
}

#[test]
fn standard_config_is_valid() {
    let c = Config::standard();
    assert!(c.is_valid());
    assert_eq!(c.screen_width, 80);
    assert_eq!(c.screen_height, 50);
    let mut bad = c;
    bad.gravity = 0;
    assert!(!bad.is_valid());
    let mut bad = c;
    bad.player_x = 80;
    assert!(!bad.is_valid());
    assert!(open_config().is_valid());
}

#[test]
fn new_game_shows_menu() {
    let s = State::new(Config::standard());
    assert_eq!(s.mode(), GameMode::Menu);
    assert_eq!(s.player(), None);
    assert!(s.obstacles().is_empty());
    assert_eq!(s.score(), 0);
}

#[test]
fn player_new_is_at_rest() {
    assert_eq!(Player::new(3, 7), Player { x: 3, y: 7, velocity: 0 });
}

#[test]
fn menu_ignores_all_but_start() {
    let mut s = State::new(Config::standard());
    for input in [Input::Idle, Input::Flap, Input::Restart, Input::Idle, Input::Flap] {
        for dt in [0u32, 1, 7] {
            let cmds = draws(s.tick(input, dt, 99));
            assert_eq!(s.mode(), GameMode::Menu);
            assert_eq!(s.player(), None);
            assert!(s.obstacles().is_empty());
            assert_eq!(cmds.len(), 4);
        }
    }
    s.tick(Input::Start, 1, 0);
    assert_eq!(s.mode(), GameMode::Playing);
}

#[test]
fn start_places_player_and_clears() {
    let s = started(Config::standard());
    assert_eq!(s.mode(), GameMode::Playing);
    assert_eq!(s.player(), Some(Player { x: 5, y: 25, velocity: 0 }));
    assert!(s.obstacles().is_empty());
    assert_eq!(s.score(), 0);
}

#[test]
fn gravity_then_flap_scenario() {
    let mut s = started(Config::standard());
    s.tick(Input::Idle, 1, 0);
    assert_eq!(s.player(), Some(Player { x: 5, y: 26, velocity: 1 }));
    s.tick(Input::Flap, 1, 0);
    assert_eq!(s.player(), Some(Player { x: 5, y: 21, velocity: -5 }));
    assert_eq!(s.mode(), GameMode::Playing);
}

#[test]
fn free_fall_follows_closed_form_and_clamps() {
    let mut s = started(Config::standard());
    for n in 1..=6i32 {
        s.tick(Input::Idle, 1, 0);
        let p = s.player().unwrap();
        assert_eq!(p.y, 25 + n * (n + 1) / 2);
        assert_eq!(p.velocity, n as i64);
        assert_eq!(s.mode(), GameMode::Playing);
    }
    // 25 + 28 = 53 is below the screen: the run ends at the last row, and the
    // player keeps the velocity of that last step.
    s.tick(Input::Idle, 1, 0);
    assert_eq!(s.mode(), GameMode::Ended);
    assert_eq!(s.player(), Some(Player { x: 5, y: 49, velocity: 7 }));
}

#[test]
fn free_fall_with_larger_step() {
    let mut s = started(Config::standard());
    s.tick(Input::Idle, 2, 0);
    assert_eq!(s.player(), Some(Player { x: 5, y: 29, velocity: 2 }));
    s.tick(Input::Idle, 2, 0);
    assert_eq!(s.player(), Some(Player { x: 5, y: 37, velocity: 4 }));
}

#[test]
fn zero_step_keeps_position() {
    let mut s = started(Config::standard());
    s.tick(Input::Idle, 0, 0);
    assert_eq!(s.player(), Some(Player { x: 5, y: 25, velocity: 0 }));
    s.tick(Input::Flap, 0, 0);
    assert_eq!(s.player(), Some(Player { x: 5, y: 25, velocity: -5 }));
}

#[test]
fn flap_overrides_any_velocity() {
    let mut s = started(Config::standard());
    for _ in 0..5 {
        s.tick(Input::Idle, 1, 0);
    }
    let before = s.player().unwrap();
    assert_eq!(before.velocity, 5);
    s.tick(Input::Flap, 1, 0);
    let after = s.player().unwrap();
    assert_eq!(after.velocity, -5);
    assert_eq!(after.y, before.y - 5);
}

#[test]
fn flying_off_the_top_ends_the_run() {
    let mut s = started(Config::standard());
    for _ in 0..5 {
        s.tick(Input::Flap, 1, 0);
    }
    assert_eq!(s.mode(), GameMode::Playing);
    assert_eq!(s.player().unwrap().y, 0);
    s.tick(Input::Flap, 1, 0);
    assert_eq!(s.mode(), GameMode::Ended);
    assert_eq!(s.player(), Some(Player { x: 5, y: 0, velocity: -5 }));
    assert!(s.obstacles().is_empty());
}

#[test]
fn ended_player_stays_frozen() {
    let mut s = started(Config::standard());
    while s.mode() == GameMode::Playing {
        s.tick(Input::Idle, 1, 0);
    }
    let frozen = s.player();
    let score = s.score();
    for input in [Input::Idle, Input::Flap, Input::Start, Input::Idle] {
        s.tick(input, 3, 17);
        assert_eq!(s.mode(), GameMode::Ended);
        assert_eq!(s.player(), frozen);
        assert_eq!(s.score(), score);
    }
}

#[test]
fn restart_from_ended_goes_to_menu() {
    let mut s = started(Config::standard());
    while s.mode() == GameMode::Playing {
        s.tick(Input::Idle, 1, 0);
    }
    let cmds = draws(s.tick(Input::Restart, 1, 0));
    assert_eq!(s.mode(), GameMode::Menu);
    assert_eq!(s.player(), None);
    assert!(s.obstacles().is_empty());
    assert_eq!(cmds.len(), 4);
}

#[test]
fn restart_while_playing_is_ignored() {
    let mut s = started(Config::standard());
    s.tick(Input::Restart, 1, 0);
    assert_eq!(s.mode(), GameMode::Playing);
    assert_eq!(s.player(), Some(Player { x: 5, y: 26, velocity: 1 }));
}

#[test]
fn quit_exits_in_every_mode() {
    let mut s = State::new(Config::standard());
    assert_eq!(s.tick(Input::Quit, 1, 0), Frame::Exit);
    assert_eq!(s.mode(), GameMode::Menu);
    s.tick(Input::Start, 1, 0);
    s.tick(Input::Idle, 1, 0);
    let before = s.player();
    assert_eq!(s.tick(Input::Quit, 1, 0), Frame::Exit);
    assert_eq!(s.mode(), GameMode::Playing);
    assert_eq!(s.player(), before);
    while s.mode() == GameMode::Playing {
        s.tick(Input::Idle, 1, 0);
    }
    assert_eq!(s.tick(Input::Quit, 1, 0), Frame::Exit);
    assert_eq!(s.mode(), GameMode::Ended);
}

#[test]
fn obstacle_spawns_at_spacing() {
    let mut s = started(Config::standard());
    // Twenty ticks scroll exactly the spacing: no spawn until it is exceeded.
    for _ in 0..20 {
        hover(&mut s, 5);
        assert!(s.obstacles().is_empty());
    }
    hover(&mut s, 5);
    assert_eq!(s.mode(), GameMode::Playing);
    let obs = s.obstacles();
    assert_eq!(obs.len(), 1);
    assert_eq!(obs[0].x, 79);
    // center = 10 + 5 % (40 - 10 + 1)
    assert_eq!(obs[0].gap_center, 15);
    assert!(!obs[0].scored);
    hover(&mut s, 5);
    assert_eq!(s.obstacles()[0].x, 78);
}

#[test]
fn gap_center_wraps_roll() {
    let mut s = started(Config::standard());
    for _ in 0..21 {
        hover(&mut s, 31 + 7);
    }
    assert_eq!(s.obstacles()[0].gap_center, 17);
}

#[test]
fn score_counts_each_obstacle_once() {
    let mut s = started(open_config());
    let px = 2i64;
    for _ in 0..60 {
        let expected: u64 = s
            .obstacles()
            .iter()
            .filter(|o| o.x >= px && o.x - 1 < px)
            .count() as u64;
        let before = s.score();
        hover(&mut s, 0);
        assert_eq!(s.mode(), GameMode::Playing);
        assert_eq!(s.score(), before + expected);
        for o in s.obstacles() {
            assert_eq!(o.scored, o.x < px);
            assert!(o.x >= 0 && o.x < 12);
        }
    }
    // Spawns on ticks 4, 8, ...; each takes ten ticks from column 11 to column 1.
    assert_eq!(s.score(), 12);
}

#[test]
fn first_point_on_crossing_tick() {
    let mut s = started(open_config());
    for _ in 0..13 {
        hover(&mut s, 0);
    }
    assert_eq!(s.score(), 0);
    assert_eq!(s.obstacles()[0].x, 2);
    hover(&mut s, 0);
    assert_eq!(s.score(), 1);
    assert_eq!(s.obstacles()[0].x, 1);
    assert!(s.obstacles()[0].scored);
    hover(&mut s, 0);
    assert_eq!(s.score(), 1);
}

#[test]
fn new_run_resets_score() {
    let mut s = started(open_config());
    for _ in 0..30 {
        hover(&mut s, 0);
    }
    assert!(s.score() > 0);
    while s.mode() == GameMode::Playing {
        s.tick(Input::Idle, 1, 0);
    }
    assert!(s.score() > 0);
    s.tick(Input::Restart, 1, 0);
    s.tick(Input::Start, 1, 0);
    assert_eq!(s.mode(), GameMode::Playing);
    assert_eq!(s.score(), 0);
    assert!(s.obstacles().is_empty());
    assert_eq!(s.player(), Some(Player { x: 2, y: 25, velocity: 0 }));
}

#[test]
fn wall_outside_gap_ends_run() {
    let mut c = open_config();
    c.gap_size = 3;
    c.gap_center_min = 5;
    c.gap_center_max = 5;
    let mut s = started(c);
    let mut ticks = 0;
    while s.mode() == GameMode::Playing && ticks < 40 {
        hover(&mut s, 0);
        ticks += 1;
    }
    // The first wall reaches the player's column on the thirteenth tick, far below its gap.
    assert_eq!(ticks, 13);
    assert_eq!(s.mode(), GameMode::Ended);
    assert!(s.obstacles().is_empty());
    let p = s.player().unwrap();
    assert!(p.y > 6);
}

#[test]
fn menu_render() {
    let s = State::new(Config::standard());
    let cmds = s.render();
    assert_eq!(
        cmds,
        vec![
            Draw::Centered { y: 23, message: Message::Welcome, value: None },
            Draw::Centered { y: 25, message: Message::PressStart, value: None },
            Draw::Centered { y: 27, message: Message::PressRestart, value: None },
            Draw::Centered { y: 29, message: Message::PressQuit, value: None },
        ]
    );
}

#[test]
fn game_render_draws_walls_player_and_score() {
    let mut s = started(Config::standard());
    let mut last = Vec::new();
    for _ in 0..21 {
        last = draws(hover(&mut s, 5));
    }
    let p = s.player().unwrap();
    let n = last.len();
    assert_eq!(last[n - 2], Draw::Glyph { x: 5, y: p.y, glyph: PLAYER_GLYPH });
    assert_eq!(last[n - 1], Draw::Text { x: 1, y: 1, message: Message::Score, value: Some(0) });
    // Gap center 15, size 10: rows 10 ..= 20 are open, 39 rows are wall.
    let walls: Vec<&Draw> = last[..n - 2].iter().collect();
    assert_eq!(walls.len(), 39);
    assert_eq!(walls[0], &Draw::Glyph { x: 79, y: 0, glyph: WALL_GLYPH });
    assert_eq!(walls[10], &Draw::Glyph { x: 79, y: 21, glyph: WALL_GLYPH });
    assert_eq!(last, s.render_game());
}

#[test]
fn game_over_render_shows_score() {
    let mut s = started(open_config());
    for _ in 0..30 {
        hover(&mut s, 0);
    }
    while s.mode() == GameMode::Playing {
        s.tick(Input::Idle, 1, 0);
    }
    let score = s.score();
    assert_eq!(
        s.render(),
        vec![
            Draw::Centered { y: 25, message: Message::GameOver, value: None },
            Draw::Centered { y: 27, message: Message::PressRestart, value: None },
            Draw::Centered { y: 29, message: Message::FinalScore, value: Some(score) },
        ]
    );
    assert_eq!(s.render(), s.render_game_over());
}

#[test]
fn message_texts() {
    assert_eq!(Message::Welcome.text(), "Welcome to Flappy Dragon!");
    assert_eq!(Message::PressStart.text(), "Press SPACE to start");
    assert_eq!(Message::PressRestart.text(), "Press R to restart");
    assert_eq!(Message::PressQuit.text(), "Press ESC to quit");
    assert_eq!(Message::Score.text(), "Score: ");
    assert_eq!(Message::GameOver.text(), "Game Over!");
    assert_eq!(Message::FinalScore.text(), "Final score: ");
}

#[test]
fn keys_map_by_mode() {
    let mut s = State::new(Config::standard());
    assert_eq!(s.input_for_key(Some(Key::Space)), Input::Start);
    assert_eq!(s.input_for_key(Some(Key::R)), Input::Restart);
    assert_eq!(s.input_for_key(Some(Key::Escape)), Input::Quit);
    assert_eq!(s.input_for_key(Some(Key::Other)), Input::Idle);
    assert_eq!(s.input_for_key(None), Input::Idle);
    s.tick(Input::Start, 1, 0);
    assert_eq!(s.input_for_key(Some(Key::Space)), Input::Flap);
    assert_eq!(s.input_for_key(None), Input::Idle);
}

#[test]
fn spawns_keep_spacing_and_score_once_per_tick() {
    let mut s = started(open_config());
    for _ in 0..60 {
        let before = s.score();
        hover(&mut s, 0);
        assert!(s.score() <= before + 1);
        let obs = s.obstacles();
        for w in obs.windows(2) {
            assert!(w[0].x + 3 < w[1].x);
        }
    }
}

#[test]
fn ending_on_obstacle_keeps_step_velocity() {
    let mut c = open_config();
    c.gap_size = 3;
    c.gap_center_min = 5;
    c.gap_center_max = 5;
    let mut s = started(c);
    let mut prev = s.player().unwrap();
    let mut flapped = false;
    while s.mode() == GameMode::Playing {
        prev = s.player().unwrap();
        flapped = prev.y >= 25;
        hover(&mut s, 0);
    }
    let expected = if flapped { -3 } else { prev.velocity + 1 };
    assert_eq!(s.player().unwrap().velocity, expected);
}
