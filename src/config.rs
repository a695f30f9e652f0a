use vstd::prelude::*;

verus! {

/// Default playfield width in columns.
pub const SCREEN_WIDTH: i32 = 80;

/// Default playfield height in rows.
pub const SCREEN_HEIGHT: i32 = 50;

/// Bound on every length-like constant, so that all arithmetic fits.
pub const MAX_EXTENT: i32 = 10000;

/// Bound on the per-unit-time constants (gravity, impulse, scroll speed).
pub const MAX_RATE: i32 = 1000;

/// The physics and layout constants of a game.
#[derive(Clone, Copy, Debug, PartialEq, Eq)]
pub struct Config {
    pub screen_width: i32,
    pub screen_height: i32,
    /// The player's fixed column.
    pub player_x: i32,
    /// The row a new run starts on.
    pub player_start_y: i32,
    /// Added to the velocity per unit of time (rows grow downwards).
    pub gravity: i32,
    /// The velocity a flap sets (negative: upwards).
    pub flap_impulse: i32,
    /// Columns an obstacle moves left per unit of time.
    pub scroll_speed: i32,
    /// Scrolled distance between two spawned obstacles.
    pub spawn_spacing: i32,
    /// Height of the passable gap of an obstacle.
    pub gap_size: i32,
    /// Lowest possible row of a gap's center.
    pub gap_center_min: i32,
    /// Highest possible row of a gap's center.
    pub gap_center_max: i32,
}

impl Config {
    /// The constants are in range: a non-empty screen, the player on it,
    /// positive gravity, an upward impulse, and gap centers on screen.
    pub open spec fn wf(&self) -> bool {
        &&& 1 <= self.screen_width <= MAX_EXTENT
        &&& 1 <= self.screen_height <= MAX_EXTENT
        &&& 0 <= self.player_x < self.screen_width
        &&& 0 <= self.player_start_y < self.screen_height
        &&& 0 < self.gravity <= MAX_RATE
        &&& -MAX_RATE <= self.flap_impulse < 0
        &&& 1 <= self.scroll_speed <= MAX_RATE
        &&& 1 <= self.spawn_spacing <= MAX_EXTENT
        &&& 1 <= self.gap_size <= self.screen_height
        &&& 0 <= self.gap_center_min <= self.gap_center_max < self.screen_height
    }

    /// The standard game: an 80x50 screen, gravity 1, flap impulse -5,
    /// the player starting at column 5, row 25.
    pub fn standard() -> (r: Config)
        ensures
            r.wf(),
            r.screen_width == SCREEN_WIDTH,
            r.screen_height == SCREEN_HEIGHT,
            r.player_x == 5,
            r.player_start_y == 25,
            r.gravity == 1,
            r.flap_impulse == -5,
            r.scroll_speed == 1,
            r.spawn_spacing == 20,
            r.gap_size == 10,
            r.gap_center_min == 10,
            r.gap_center_max == 40,
    {
        Config {
            screen_width: SCREEN_WIDTH,
            screen_height: SCREEN_HEIGHT,
            player_x: 5,
            player_start_y: 25,
            gravity: 1,
            flap_impulse: -5,
            scroll_speed: 1,
            spawn_spacing: 20,
            gap_size: 10,
            gap_center_min: 10,
            gap_center_max: 40,
        }
    }

    /// Checks the range conditions of `wf`.
    pub fn is_valid(&self) -> (r: bool)
        ensures
            r == self.wf(),
    {
        1 <= self.screen_width && self.screen_width <= MAX_EXTENT
            && 1 <= self.screen_height && self.screen_height <= MAX_EXTENT
            && 0 <= self.player_x && self.player_x < self.screen_width
            && 0 <= self.player_start_y && self.player_start_y < self.screen_height
            && 0 < self.gravity && self.gravity <= MAX_RATE
            && -MAX_RATE <= self.flap_impulse && self.flap_impulse < 0
            && 1 <= self.scroll_speed && self.scroll_speed <= MAX_RATE
            && 1 <= self.spawn_spacing && self.spawn_spacing <= MAX_EXTENT
            && 1 <= self.gap_size && self.gap_size <= self.screen_height
            && 0 <= self.gap_center_min && self.gap_center_min <= self.gap_center_max
            && self.gap_center_max < self.screen_height
    }
}

} // verus!
