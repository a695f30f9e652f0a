use vstd::prelude::*;
use crate::config::Config;
use crate::game::{blocks, obstacle_ok, GameMode, GameView, Obstacle, State};

verus! {

/// The fixed texts of the screens.
#[derive(Clone, Copy, Debug, PartialEq, Eq, Structural)]
pub enum Message {
    Welcome,
    PressStart,
    PressRestart,
    PressQuit,
    Score,
    GameOver,
    FinalScore,
}

/// One drawing command for the host.
#[derive(Clone, Copy, Debug, PartialEq, Eq)]
pub enum Draw {
    /// A single character at a cell.
    Glyph { x: i32, y: i32, glyph: char },
    /// A text, followed by a number if one is given, starting at a cell.
    Text { x: i32, y: i32, message: Message, value: Option<u64> },
    /// A text, followed by a number if one is given, centered on a row.
    Centered { y: i32, message: Message, value: Option<u64> },
}

/// The text of a message.
pub open spec fn message_text(m: Message) -> Seq<char> {
    match m {
        Message::Welcome => "Welcome to Flappy Dragon!"@,
        Message::PressStart => "Press SPACE to start"@,
        Message::PressRestart => "Press R to restart"@,
        Message::PressQuit => "Press ESC to quit"@,
        Message::Score => "Score: "@,
        Message::GameOver => "Game Over!"@,
        Message::FinalScore => "Final score: "@,
    }
}

impl Message {
    pub fn text(&self) -> (r: &'static str)
        ensures
            r@ == message_text(*self),
    {
        match self {
            Message::Welcome => "Welcome to Flappy Dragon!",
            Message::PressStart => "Press SPACE to start",
            Message::PressRestart => "Press R to restart",
            Message::PressQuit => "Press ESC to quit",
            Message::Score => "Score: ",
            Message::GameOver => "Game Over!",
            Message::FinalScore => "Final score: ",
        }
    }
}

/// The glyph of the player.
pub const PLAYER_GLYPH: char = '@';

/// The glyph of a wall cell.
pub const WALL_GLYPH: char = '|';

pub open spec fn centered(y: int, m: Message) -> Draw {
    Draw::Centered { y: y as i32, message: m, value: None }
}

/// The menu: a welcome and the three keys.
pub open spec fn menu_screen(cfg: Config) -> Seq<Draw> {
    let mid = cfg.screen_height / 2;
    seq![
        centered(mid - 2, Message::Welcome),
        centered(mid, Message::PressStart),
        centered(mid + 2, Message::PressRestart),
        centered(mid + 4, Message::PressQuit),
    ]
}

/// The wall cells of an obstacle in rows `0 .. rows`, top to bottom.
pub open spec fn wall(cfg: Config, o: Obstacle, rows: int) -> Seq<Draw>
    decreases rows,
{
    if rows <= 0 {
        Seq::empty()
    } else {
        let prev = wall(cfg, o, rows - 1);
        if blocks(cfg, o, rows - 1) {
            prev.push(Draw::Glyph { x: o.x as i32, y: (rows - 1) as i32, glyph: WALL_GLYPH })
        } else {
            prev
        }
    }
}

/// The walls of all obstacles, in order.
pub open spec fn walls(cfg: Config, obs: Seq<Obstacle>) -> Seq<Draw>
    decreases obs.len(),
{
    if obs.len() == 0 {
        Seq::empty()
    } else {
        walls(cfg, obs.drop_last()) + wall(cfg, obs.last(), cfg.screen_height as int)
    }
}

/// A run in play: the walls, then the player, then the score.
pub open spec fn game_screen(s: GameView) -> Seq<Draw> {
    let p = s.player.unwrap();
    walls(s.config, s.obstacles) + seq![
        Draw::Glyph { x: p.x, y: p.y, glyph: PLAYER_GLYPH },
        Draw::Text { x: 1, y: 1, message: Message::Score, value: Some(s.score as u64) },
    ]
}

/// The end of a run: the notice, the key, and the final score.
pub open spec fn over_screen(s: GameView) -> Seq<Draw> {
    let mid = s.config.screen_height / 2;
    seq![
        centered(mid, Message::GameOver),
        centered(mid + 2, Message::PressRestart),
        Draw::Centered {
            y: (mid + 4) as i32,
            message: Message::FinalScore,
            value: Some(s.score as u64),
        },
    ]
}

/// What is drawn in a state.
pub open spec fn screen(s: GameView) -> Seq<Draw> {
    match s.mode {
        GameMode::Menu => menu_screen(s.config),
        GameMode::Playing => game_screen(s),
        GameMode::Ended => over_screen(s),
    }
}

/// Appends the wall cells of one obstacle.
fn push_wall(cfg: Config, o: Obstacle, cmds: &mut Vec<Draw>)
    requires
        cfg.wf(),
        obstacle_ok(cfg, o),
    ensures
        final(cmds)@ == old(cmds)@ + wall(cfg, o, cfg.screen_height as int),
{
    let ghost start = cmds@;
    let half: i32 = cfg.gap_size / 2;
    let mut row: i32 = 0;
    while row < cfg.screen_height
        invariant
            cfg.wf(),
            obstacle_ok(cfg, o),
            half == cfg.gap_size / 2,
            0 <= row <= cfg.screen_height,
            cmds@ == start + wall(cfg, o, row as int),
        decreases cfg.screen_height - row,
    {
        let ghost before = wall(cfg, o, row as int);
        if row < o.gap_center - half || row > o.gap_center + half {
            let g = Draw::Glyph { x: o.x as i32, y: row, glyph: WALL_GLYPH };
            cmds.push(g);
            assert((start + before).push(g) =~= start + before.push(g));
        }
        row = row + 1;
    }
}

/// The menu's commands.
pub fn render_menu(cfg: Config) -> (r: Vec<Draw>)
    requires
        cfg.wf(),
    ensures
        r@ == menu_screen(cfg),
{
    let mid: i32 = cfg.screen_height / 2;
    let r = vec![
        Draw::Centered { y: mid - 2, message: Message::Welcome, value: None },
        Draw::Centered { y: mid, message: Message::PressStart, value: None },
        Draw::Centered { y: mid + 2, message: Message::PressRestart, value: None },
        Draw::Centered { y: mid + 4, message: Message::PressQuit, value: None },
    ];
    assert(r@ =~= menu_screen(cfg));
    r
}

impl State {
    /// The commands of a run in play.
    pub fn render_game(&self) -> (r: Vec<Draw>)
        requires
            self.wf(),
            self@.mode == GameMode::Playing,
        ensures
            r@ == game_screen(self@),
    {
        let cfg = self.config();
        let obs = self.obstacles();
        let mut cmds: Vec<Draw> = Vec::new();
        let mut i: usize = 0;
        while i < obs.len()
            invariant
                cfg == self@.config,
                obs@ == self@.obstacles,
                self.wf(),
                i <= obs@.len(),
                cmds@ == walls(cfg, obs@.subrange(0, i as int)),
            decreases obs@.len() - i,
        {
            assert(obstacle_ok(cfg, obs@[i as int]));
            push_wall(cfg, obs[i], &mut cmds);
            let ghost pre = obs@.subrange(0, i as int + 1);
            assert(pre.drop_last() =~= obs@.subrange(0, i as int));
            i = i + 1;
        }
        assert(obs@.subrange(0, obs@.len() as int) =~= obs@);
        let p = self.player().unwrap();
        let ghost w = cmds@;
        cmds.push(Draw::Glyph { x: p.x, y: p.y, glyph: PLAYER_GLYPH });
        cmds.push(Draw::Text { x: 1, y: 1, message: Message::Score, value: Some(self.score()) });
        assert(cmds@ =~= game_screen(self@));
        cmds
    }

    /// The commands of a finished run.
    pub fn render_game_over(&self) -> (r: Vec<Draw>)
        requires
            self.wf(),
        ensures
            r@ == over_screen(self@),
    {
        let mid: i32 = self.config().screen_height / 2;
        let r = vec![
            Draw::Centered { y: mid, message: Message::GameOver, value: None },
            Draw::Centered { y: mid + 2, message: Message::PressRestart, value: None },
            Draw::Centered { y: mid + 4, message: Message::FinalScore, value: Some(self.score()) },
        ];
        assert(r@ =~= over_screen(self@));
        r
    }

    /// The commands that draw the current screen.
    pub fn render(&self) -> (r: Vec<Draw>)
        requires
            self.wf(),
        ensures
            r@ == screen(self@),
    {
        match self.mode() {
            GameMode::Menu => render_menu(self.config()),
            GameMode::Playing => self.render_game(),
            GameMode::Ended => self.render_game_over(),
        }
    }
}

} // verus!
