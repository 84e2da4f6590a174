//! The game world: the rules that move the fleet, the player and the projectiles.
//!
//! An update of the world runs in phases, in this order: the fleet steps one frame at a time,
//! the player moves, the bullet moves and collides, and the lasers move and collide.

use crate::collision::{rect_fits, BulletDetail, Collision};
use crate::controls::{Controls, Direction};
use crate::geo::{rects_intersect, Point};
use crate::invaders::{
    advance_frames, any_live, bounds_ordered, elapsed_frames, fleet_box, fresh_invader,
    grid_shaped, home_position, invader_at, leftover_nanos, lemma_step_order_bijective,
    lemma_steps_to_value, live, live_within_bounds, make_invader_grid, next_invader, row_frame,
    row_offset, step_order, steps_to, lemma_frames_in_two, Bounds, Bullet, Invader, Invaders, Laser, Player, Shield,
    COLS, FRAME_NANOS, GRID_X, GRID_Y, ROWS, START_X, START_Y,
};
use crate::loader::{frame_key, Assets};
use crate::sprites::{animated, Drawable, Frame, Sprite, SpriteRef, SCREEN_HEIGHT, SCREEN_WIDTH};
use crate::timing::{max_duration_nanos, NANOS_PER_SEC};
use rand_core::{OsRng, RngCore};
use vstd::prelude::*;

verus! {

/// Where the player starts (left edge).
pub const PLAYER_START_X: usize = 80;

/// Where the player stands (top edge).
pub const PLAYER_START_Y: usize = 216;

/// Where a laser leaves an invader, relative to the invader.
pub const LASER_OFFSET_X: usize = 4;

/// Where a laser leaves an invader, relative to the invader.
pub const LASER_OFFSET_Y: usize = 10;

/// Where the bullet leaves the player's cannon, relative to the player.
pub const BULLET_OFFSET_X: usize = 7;

/// Where the bullet leaves the player's cannon, relative to the player.
pub const BULLET_OFFSET_Y: usize = 0;

/// How long one animation frame of the player lasts, in nanoseconds.
pub const PLAYER_FRAME_NANOS: u128 = 100_000_000;

/// How long one animation frame of a laser lasts, in nanoseconds.
pub const LASER_FRAME_NANOS: u128 = 16_000_000;

/// How long one animation frame of the bullet lasts, in nanoseconds.
pub const BULLET_FRAME_NANOS: u128 = 32_000_000;

/// The length of one fleet step, in nanoseconds.
pub const ONE_FRAME: u128 = 16_666_667;

#[verifier::external_type_specification]
#[verifier::external_body]
pub struct ExOsRng(OsRng);

/// Creates `rand_core::OsRng`, the generator that reads the operating system's source of
/// randomness.
#[verifier::external_body]
fn os_rng() -> OsRng {
    OsRng
}

/// Calls `RngCore::next_u32` on `OsRng`. The number comes from the operating system; nothing is
/// claimed of it.
#[verifier::external_body]
fn next_random(rng: &mut OsRng) -> u32 {
    rng.next_u32()
}

/// The game world.
#[derive(Debug)]
pub struct World {
    pub invaders: Option<Invaders>,
    pub lasers: Vec<Laser>,
    pub shields: Vec<Shield>,
    pub player: Option<Player>,
    pub bullet: Option<Bullet>,
    pub collision: Collision,
    pub score: u32,
    pub assets: Assets,
    pub dt: u128,
    pub gameover: bool,
    pub prng: OsRng,
    pub debug: bool,
}

/// The assets hold a sprite for every frame, none wider or higher than a PCX image can be.
pub open spec fn assets_complete(assets: &Assets) -> bool {
    forall|f: Frame|
        {
            &&& #[trigger] assets.spec_sprites().contains_key(frame_key(f))
            &&& assets.spec_sprites()[frame_key(f)].0 <= 0xffff
            &&& assets.spec_sprites()[frame_key(f)].1 <= 0xffff
        }
}

impl Assets {
    /// Whether the sprite of `frame` is present and no larger than a PCX image.
    fn frame_fits(&self, frame: Frame) -> (ok: bool)
        ensures
            ok == ({
                &&& self.spec_sprites().contains_key(frame_key(frame))
                &&& self.spec_sprites()[frame_key(frame)].0 <= 0xffff
                &&& self.spec_sprites()[frame_key(frame)].1 <= 0xffff
            }),
    {
        broadcast use vstd::std_specs::hash::group_hash_axioms;

        match self.sprites.get(&crate::loader::key_of(frame)) {
            Some(s) => s.0 <= 0xffff && s.1 <= 0xffff,
            None => false,
        }
    }

    /// Whether the assets hold a sprite for every frame, none larger than a PCX image (see
    /// `assets_complete`), as a new world needs.
    pub fn is_complete(&self) -> (ok: bool)
        ensures
            ok == assets_complete(self),
    {
        let ok = self.frame_fits(Frame::Blipjoy1) && self.frame_fits(Frame::Blipjoy2)
            && self.frame_fits(Frame::Ferris1) && self.frame_fits(Frame::Ferris2)
            && self.frame_fits(Frame::Cthulhu1) && self.frame_fits(Frame::Cthulhu2)
            && self.frame_fits(Frame::Player1) && self.frame_fits(Frame::Player2)
            && self.frame_fits(Frame::Shield1) && self.frame_fits(Frame::Bullet1)
            && self.frame_fits(Frame::Laser1);
        proof {
            if ok {
                assert forall|f: Frame| #[trigger] self.spec_sprites().contains_key(frame_key(f)) by {
                    match f {
                        Frame::Blipjoy1 => {},
                        Frame::Blipjoy2 => {},
                        Frame::Ferris1 => {},
                        Frame::Ferris2 => {},
                        Frame::Cthulhu1 => {},
                        Frame::Cthulhu2 => {},
                        Frame::Player1 => {},
                        Frame::Player2 => {},
                        Frame::Shield1 => {},
                        Frame::Bullet1 => {},
                        Frame::Laser1 => {},
                    }
                }
            }
        }
        ok
    }
}

/// A sprite no larger than a PCX image, with a consistent animation clock.
pub open spec fn sprite_ok(s: SpriteRef) -> bool {
    &&& s.width <= 0xffff
    &&& s.height <= 0xffff
    &&& s.wf()
}

/// The lowest that an invader can get: invaders stop at the player's row while the game goes
/// on, but once it is over, the steps left in one update can carry the fleet further down, as
/// far as positions on the screen, with a sprite's height added, stay within `usize`.
pub open spec fn y_cap() -> int {
    usize::MAX - 0x4_0000
}

/// A position well within `usize`: near the screen horizontally, above the fleet's cap
/// vertically.
pub open spec fn near_screen(p: Point) -> bool {
    p.x <= 1000 && p.y <= y_cap() + 16
}

/// Every live invader lies at or above row `b` of the screen, and the top of the fleet's bounds
/// at most eight rows below it.
pub open spec fn fleet_below(inv: &Invaders, b: int) -> bool {
    &&& inv.bounds.pos.y <= b + 8
    &&& forall|r: int, c: int|
        #[trigger] live(inv.grid@, r, c) ==> invader_at(inv.grid@, r, c).pos.y <= b
}

/// The fleet origin: where column 0 of row 0 would be.
pub open spec fn origin_x(b: Bounds) -> int {
    b.pos.x - b.left_col * GRID_X
}

/// The fleet origin: where column 0 of row 0 would be.
pub open spec fn origin_y(b: Bounds) -> int {
    b.pos.y - b.top_row * GRID_Y
}

/// The invader at row `r` and column `c` has already taken its step in the current cycle of the
/// stepper.
pub open spec fn stepped(inv: &Invaders, r: int, c: int) -> bool {
    step_order(c, r) <= step_order(inv.stepper.x as int, inv.stepper.y as int)
}

/// The horizontal displacement of the fleet's current cycle.
pub open spec fn shift_x(inv: &Invaders) -> int {
    if inv.direction == Direction::Right {
        2
    } else {
        -2
    }
}

/// The vertical displacement of the fleet's current cycle.
pub open spec fn shift_y(inv: &Invaders) -> int {
    if inv.descend {
        8
    } else {
        0
    }
}

/// Where the invader at row `r` and column `c` is in formation: at its place relative to the
/// fleet origin, less the current cycle's displacement when it has not stepped yet.
pub open spec fn formation_x(inv: &Invaders, r: int, c: int) -> int {
    origin_x(inv.bounds) + c * GRID_X + row_offset(r).0 - if stepped(inv, r, c) {
        0
    } else {
        shift_x(inv)
    }
}

/// Where the invader at row `r` and column `c` is in formation (vertically).
pub open spec fn formation_y(inv: &Invaders, r: int, c: int) -> int {
    origin_y(inv.bounds) + r * GRID_Y + row_offset(r).1 - if stepped(inv, r, c) {
        0
    } else {
        shift_y(inv)
    }
}

/// The live invader at row `r` and column `c` keeps formation and stays above the player's row.
pub open spec fn invader_ok(inv: &Invaders, r: int, c: int, gameover: bool) -> bool {
    let i = invader_at(inv.grid@, r, c);
    &&& i.pos.x == formation_x(inv, r, c)
    &&& i.pos.y == formation_y(inv, r, c)
    &&& !gameover ==> i.pos.y + 8 < PLAYER_START_Y
    &&& i.sprite.width <= 0xffff
    &&& i.sprite.height <= 0xffff
}

/// The fleet is well formed: a full grid with at least one live invader, bounds around the live
/// invaders near the screen, and every live invader in formation.
pub open spec fn fleet_ok(inv: &Invaders, gameover: bool) -> bool {
    &&& grid_shaped(inv.grid@)
    &&& inv.stepper.x < COLS
    &&& inv.stepper.y < ROWS
    &&& bounds_ordered(inv.bounds)
    &&& fleet_box(inv.bounds).1 <= 900
    &&& fleet_below(inv, y_cap())
    &&& live_within_bounds(inv.grid@, inv.bounds)
    &&& any_live(inv.grid@)
    &&& inv.direction != Direction::Still
    &&& forall|r: int, c: int| #[trigger] live(inv.grid@, r, c) ==> invader_ok(inv, r, c, gameover)
}

/// A projectile or the player: near the screen, with a small sprite and a frame clock below one
/// frame.
pub open spec fn mover_ok(pos: Point, sprite: SpriteRef, dt: usize) -> bool {
    &&& near_screen(pos)
    &&& sprite_ok(sprite)
    &&& dt < FRAME_NANOS
}

/// A shield near the screen with a small sprite.
pub open spec fn shield_ok(s: Shield) -> bool {
    &&& near_screen(s.pos)
    &&& s.sprite.width <= 0xffff
    &&& s.sprite.height <= 0xffff
}

impl World {
    /// The world is well formed.
    pub open spec fn wf(&self) -> bool {
        &&& self.collision.wf()
        &&& self.collision.pixel_mask@.len() == SCREEN_WIDTH * SCREEN_HEIGHT * 4
        &&& assets_complete(&self.assets)
        &&& self.shields@.len() == 4
        &&& forall|i: int| 0 <= i < 4 ==> shield_ok(#[trigger] self.shields@[i])
        &&& self.lasers@.len() <= 3
        &&& forall|i: int|
            0 <= i < self.lasers@.len() ==> mover_ok(
                #[trigger] self.lasers@[i].pos,
                self.lasers@[i].sprite,
                self.lasers@[i].dt,
            )
        &&& self.bullet matches Some(b) ==> mover_ok(b.pos, b.sprite, b.dt)
        &&& self.player matches Some(p) ==> mover_ok(p.pos, p.sprite, p.dt) && p.pos.y
            == PLAYER_START_Y && p.pos.x < 300
        &&& self.player is None ==> self.gameover
        &&& self.invaders is Some && self.gameover ==> self.player is None
        &&& self.dt <= max_duration_nanos()
        &&& self.invaders matches Some(inv) ==> fleet_ok(&inv, self.gameover)
    }
}


/// The fleet of a new world: every invader at home, the stepper on the last cell, moving right
/// without descending, within the default bounds.
pub open spec fn starting_fleet(assets: &Assets, inv: &Invaders) -> bool {
    &&& forall|r: int, c: int|
        0 <= r < ROWS && 0 <= c < COLS ==> #[trigger] live(inv.grid@, r, c) && fresh_invader(
            assets,
            invader_at(inv.grid@, r, c),
            r,
            c,
        )
    &&& inv.stepper == (Point { x: (COLS - 1) as usize, y: 0 })
    &&& inv.direction == Direction::Right
    &&& !inv.descend
    &&& inv.bounds.pos == (Point { x: START_X, y: START_Y })
    &&& inv.bounds.left_col == 0
    &&& inv.bounds.right_col == COLS - 1
    &&& inv.bounds.top_row == 0
    &&& inv.bounds.bottom_row == ROWS - 1
}

/// Shield `i` of a new world: spaced 45 pixels apart on row 192, with the shield sprite.
pub open spec fn starting_shield(assets: &Assets, s: Shield, i: int) -> bool {
    &&& s.pos == (Point { x: (i * 45 + 32) as usize, y: 192 })
    &&& s.sprite.width == assets.spec_sprites()[frame_key(Frame::Shield1)].0
    &&& s.sprite.height == assets.spec_sprites()[frame_key(Frame::Shield1)].1
    &&& s.sprite.pixels@ == assets.spec_sprites()[frame_key(Frame::Shield1)].2@
}

/// The shields of a new world.
pub open spec fn starting_shields(assets: &Assets, shields: Seq<Shield>) -> bool {
    shields.len() == 4 && forall|i: int| 0 <= i < 4 ==> starting_shield(assets, #[trigger] shields[i], i)
}

/// The player of a new world: at its starting position, showing its first frame.
pub open spec fn starting_player(p: &Player) -> bool {
    &&& p.pos == (Point { x: PLAYER_START_X, y: PLAYER_START_Y })
    &&& p.sprite.frame == Frame::Player1
    &&& p.sprite.duration == PLAYER_FRAME_NANOS
    &&& p.sprite.dt == 0
    &&& p.dt == 0
}

impl World {
    /// Create a new world from the loaded assets: a full fleet in its starting formation moving
    /// right, four shields, and the player at its starting position.
    pub fn new(assets: Assets, debug: bool) -> (w: World)
        requires
            assets_complete(&assets),
        ensures
            w.wf(),
            w.assets == assets,
            w.debug == debug,
            w.invaders matches Some(inv) && starting_fleet(&assets, &inv),
            w.lasers@.len() == 0,
            starting_shields(&assets, w.shields@),
            w.player matches Some(p) && starting_player(&p),
            w.bullet is None,
            w.collision.bullet_set().is_empty(),
            w.collision.laser_set().is_empty(),
            w.collision.pixel_mask@ == Seq::new((SCREEN_WIDTH * SCREEN_HEIGHT * 4) as nat, |i: int| 0u8),
            w.score == 0,
            w.dt == 0,
            !w.gameover,
    {
        let grid = make_invader_grid(&assets);
        let invaders = Some(
            Invaders {
                grid,
                stepper: Point::new(COLS - 1, 0),
                direction: Direction::Right,
                descend: false,
                bounds: Bounds::default(),
            },
        );

        let lasers: Vec<Laser> = Vec::with_capacity(3);
        let mut shields: Vec<Shield> = Vec::new();
        let mut i: usize = 0;
        while i < 4
            invariant
                0 <= i <= 4,
                assets_complete(&assets),
                shields@.len() == i,
                forall|j: int| 0 <= j < i ==> starting_shield(&assets, #[trigger] shields@[j], j),
            decreases 4 - i,
        {
            proof {
                assert(assets.spec_sprites().contains_key(frame_key(Frame::Shield1)));
            }
            shields.push(Shield { sprite: Sprite::new(&assets, Frame::Shield1), pos: Point::new(i * 45 + 32, 192) });
            i = i + 1;
        }

        proof {
            assert(assets.spec_sprites().contains_key(frame_key(Frame::Player1)));
        }
        let player = Some(
            Player {
                sprite: SpriteRef::with_period(&assets, Frame::Player1, PLAYER_FRAME_NANOS),
                pos: Point::new(PLAYER_START_X, PLAYER_START_Y),
                dt: 0,
            },
        );

        let mut collision = Collision::default();
        collision.pixel_mask = crate::buffer::zeroed(SCREEN_WIDTH * SCREEN_HEIGHT * 4);
        proof {
            assert(collision.bullet_set() =~= Set::<crate::collision::BulletDetail>::empty());
            assert(collision.laser_set() =~= Set::<crate::collision::LaserDetail>::empty());
        }

        let w = World {
            invaders,
            lasers,
            shields,
            player,
            bullet: None,
            collision,
            score: 0,
            assets,
            dt: 0,
            gameover: false,
            prng: os_rng(),
            debug,
        };
        proof {
            let inv = w.invaders->Some_0;
            assert(live(inv.grid@, 0, 0));
            assert forall|r: int, c: int| #[trigger] live(inv.grid@, r, c) implies invader_ok(&inv, r, c, false) by {
                assert(r < ROWS && c < COLS);
                assert(fresh_invader(&w.assets, invader_at(inv.grid@, r, c), r, c));
                assert(stepped(&inv, r, c));
                let i = invader_at(inv.grid@, r, c);
                assert(origin_x(inv.bounds) == START_X);
                assert(i.pos == home_position(r, c));
                assert(i.pos.x == formation_x(&inv, r, c));
                assert(i.pos.y == formation_y(&inv, r, c));
                assert(i.pos.y + 8 < PLAYER_START_Y);
                assert(w.assets.spec_sprites().contains_key(frame_key(row_frame(r))));
            }
            assert forall|r: int, c: int| #[trigger] live(inv.grid@, r, c) implies inv.bounds.top_row <= r
                <= inv.bounds.bottom_row && inv.bounds.left_col <= c <= inv.bounds.right_col by {}
            assert(w.collision.wf());
            assert(w.collision.pixel_mask@.len() == SCREEN_WIDTH * SCREEN_HEIGHT * 4);
            assert(w.assets.spec_sprites().contains_key(frame_key(Frame::Shield1)));
            assert forall|i: int| 0 <= i < 4 implies shield_ok(#[trigger] w.shields@[i]) by {
                assert(starting_shield(&w.assets, w.shields@[i], i));
            }
            assert(w.assets.spec_sprites().contains_key(frame_key(Frame::Player1)));
            assert(w.player matches Some(p) && mover_ok(p.pos, p.sprite, p.dt));
            assert(fleet_ok(&inv, false));
        }
        w
    }
}


/// The cell at column `x` and row `y` holds the first live invader after the stepper, in step
/// order.
pub open spec fn next_live_cell(inv: &Invaders, x: int, y: int) -> bool {
    &&& 0 <= x < COLS
    &&& 0 <= y < ROWS
    &&& live(inv.grid@, y, x)
    &&& forall|r: int, c: int|
        #[trigger] live(inv.grid@, r, c) ==> steps_to(
            inv.stepper.x as int,
            inv.stepper.y as int,
            x,
            y,
        ) <= steps_to(inv.stepper.x as int, inv.stepper.y as int, c, r)
}

/// Reaching the cell at column `x` and row `y` from the stepper wraps around the grid: the
/// invader there leads the fleet.
pub open spec fn leads(inv: &Invaders, x: int, y: int) -> bool {
    step_order(inv.stepper.x as int, inv.stepper.y as int) + steps_to(
        inv.stepper.x as int,
        inv.stepper.y as int,
        x,
        y,
    ) >= ROWS * COLS
}

/// The bounds of the fleet after its leader steps: at the left or right edge of the screen the
/// fleet turns around and descends; otherwise it moves two pixels on.
pub open spec fn led_bounds(inv: &Invaders) -> Bounds {
    let b = inv.bounds;
    let box_ = fleet_box(b);
    let pos = if inv.direction == Direction::Left {
        if box_.3 < 2 {
            Point { x: (b.pos.x + 2) as usize, y: (b.pos.y + 8) as usize }
        } else {
            Point { x: (b.pos.x - 2) as usize, y: b.pos.y }
        }
    } else {
        if box_.1 > SCREEN_WIDTH - 2 {
            Point { x: (b.pos.x - 2) as usize, y: (b.pos.y + 8) as usize }
        } else {
            Point { x: (b.pos.x + 2) as usize, y: b.pos.y }
        }
    };
    Bounds { pos, left_col: b.left_col, right_col: b.right_col, top_row: b.top_row, bottom_row: b.bottom_row }
}

/// The fleet's direction after its leader steps.
pub open spec fn led_direction(inv: &Invaders) -> Direction {
    let box_ = fleet_box(inv.bounds);
    if inv.direction == Direction::Left {
        if box_.3 < 2 {
            Direction::Right
        } else {
            Direction::Left
        }
    } else {
        if box_.1 > SCREEN_WIDTH - 2 {
            Direction::Left
        } else {
            Direction::Right
        }
    }
}

/// Whether the fleet descends after its leader steps: exactly when it turns around.
pub open spec fn led_descend(inv: &Invaders) -> bool {
    let box_ = fleet_box(inv.bounds);
    if inv.direction == Direction::Left {
        box_.3 < 2
    } else {
        box_.1 > SCREEN_WIDTH - 2
    }
}

/// How a stepping invader at `old_pos` moves in a fleet with direction `direction` that
/// descends or not.
pub open spec fn stepped_position(old_pos: Point, direction: Direction, descend: bool) -> Point {
    Point {
        x: (if direction == Direction::Left {
            old_pos.x - 2
        } else {
            old_pos.x + 2
        }) as usize,
        y: (if descend {
            old_pos.y + 8
        } else {
            old_pos.y as int
        }) as usize,
    }
}

/// In step order, a cell other than the one found next keeps whether it has stepped, unless the
/// search wrapped around: then every live cell had stepped, and all but the found one have not
/// in the new cycle.
proof fn lemma_step_phase(x0: int, y0: int, x1: int, y1: int, qx: int, qy: int)
    requires
        0 <= x0 < COLS,
        0 <= y0 < ROWS,
        0 <= x1 < COLS,
        0 <= y1 < ROWS,
        0 <= qx < COLS,
        0 <= qy < ROWS,
        steps_to(x0, y0, x1, y1) <= steps_to(x0, y0, qx, qy),
        qx != x1 || qy != y1,
    ensures
        step_order(x0, y0) + steps_to(x0, y0, x1, y1) < ROWS * COLS ==> (step_order(qx, qy)
            <= step_order(x1, y1) <==> step_order(qx, qy) <= step_order(x0, y0)),
        step_order(x0, y0) + steps_to(x0, y0, x1, y1) >= ROWS * COLS ==> step_order(qx, qy)
            <= step_order(x0, y0) && step_order(qx, qy) > step_order(x1, y1),
{
    lemma_steps_to_value(x0, y0, x1, y1);
    lemma_steps_to_value(x0, y0, qx, qy);
    lemma_step_order_bijective(qx, qy, x1, y1);
}

/// The cell found next had not stepped, unless the search wrapped around.
proof fn lemma_step_phase_found(x0: int, y0: int, x1: int, y1: int)
    requires
        0 <= x0 < COLS,
        0 <= y0 < ROWS,
        0 <= x1 < COLS,
        0 <= y1 < ROWS,
    ensures
        step_order(x0, y0) + steps_to(x0, y0, x1, y1) < ROWS * COLS ==> step_order(x1, y1)
            > step_order(x0, y0),
        step_order(x0, y0) + steps_to(x0, y0, x1, y1) >= ROWS * COLS ==> step_order(x1, y1)
            <= step_order(x0, y0),
{
    lemma_steps_to_value(x0, y0, x1, y1);
}

/// `l` is a laser just fired by an invader at `shooter`: below it, showing its only frame with a
/// fresh clock.
pub open spec fn fired_laser(assets: &Assets, l: Laser, shooter: Point) -> bool {
    let cached = assets.spec_sprites()[frame_key(Frame::Laser1)];
    &&& l.pos == (Point { x: (shooter.x + LASER_OFFSET_X) as usize, y: (shooter.y + LASER_OFFSET_Y) as usize })
    &&& l.sprite == (SpriteRef {
        width: cached.0,
        height: cached.1,
        pixels: cached.2,
        frame: Frame::Laser1,
        duration: LASER_FRAME_NANOS,
        dt: 0,
    })
    &&& l.dt == 0
}

/// The invader at row `sr` and column `sc` is the one that `get_closest_invader` finds from
/// column `col`.
pub open spec fn closest_live(grid: Seq<Vec<Option<Invader>>>, col: int, sr: int, sc: int) -> bool {
    &&& live(grid, sr, sc)
    &&& forall|r2: int, c2: int|
        #[trigger] live(grid, r2, c2) ==> crate::invaders::closest_order(col, sr, sc)
            <= crate::invaders::closest_order(col, r2, c2)
}

/// `w1` is `w0` after one step of the fleet with the random number `r` (see
/// `World::step_invaders_with`); the clock is not part of it.
pub open spec fn invaders_stepped(w0: &World, w1: &World, r: u32) -> bool {
    let inv0 = w0.invaders->Some_0;
    let inv1 = w1.invaders->Some_0;
    let (x1, y1) = (inv1.stepper.x as int, inv1.stepper.y as int);
    let lead = leads(&inv0, x1, y1);
    let moved = invader_at(inv1.grid@, y1, x1);
    let before = invader_at(inv0.grid@, y1, x1);
    let fires = (r as int) % 50 == 0 && w0.lasers@.len() < 3;
    &&& w1.invaders is Some
    &&& next_live_cell(&inv0, x1, y1)
    &&& inv1.bounds == if lead { led_bounds(&inv0) } else { inv0.bounds }
    &&& inv1.direction == if lead { led_direction(&inv0) } else { inv0.direction }
    &&& inv1.descend == if lead { led_descend(&inv0) } else { inv0.descend }
    &&& moved.pos == stepped_position(before.pos, inv1.direction, inv1.descend)
    &&& moved.sprite.frame == crate::sprites::next_frame(before.sprite.frame)
    &&& moved.sprite.pixels == w0.assets.spec_sprites()[frame_key(moved.sprite.frame)].2
    &&& moved.sprite.width == before.sprite.width
    &&& moved.sprite.height == before.sprite.height
    &&& moved.sprite.duration == before.sprite.duration
    &&& moved.sprite.dt == before.sprite.dt
    &&& moved.score == before.score
    &&& inv1.grid@.len() == inv0.grid@.len()
    &&& forall|rr: int, cc: int|
        0 <= rr < ROWS && 0 <= cc < COLS && (rr != y1 || cc != x1) ==> #[trigger] inv1.grid@[rr]@[cc]
            == inv0.grid@[rr]@[cc]
    &&& w1.gameover == (w0.gameover || reaches_player(w0.player, inv1.descend, moved.pos))
    &&& w1.player == if reaches_player(w0.player, inv1.descend, moved.pos) {
        None
    } else {
        w0.player
    }
    &&& forall|b: int| #[trigger] fleet_below(&inv0, b) ==> fleet_below(&inv1, b + 8)
    &&& fires ==> {
        &&& w1.lasers@ == w0.lasers@.push(w1.lasers@.last())
        &&& exists|sr: int, sc: int|
            #[trigger] closest_live(inv1.grid@, (r as int) / 50 % (COLS as int), sr, sc) && fired_laser(
                &w0.assets,
                w1.lasers@.last(),
                invader_at(inv1.grid@, sr, sc).pos,
            )
    }
    &&& !fires ==> w1.lasers == w0.lasers
    &&& w1.shields == w0.shields
    &&& w1.bullet == w0.bullet
    &&& w1.collision == w0.collision
    &&& w1.score == w0.score
    &&& w1.assets == w0.assets
    &&& w1.debug == w0.debug
}

impl World {
    /// Step the fleet: the next live invader after the stepper takes its step.
    ///
    /// When the search wraps around, that invader leads the fleet: the fleet stops descending,
    /// and at an edge of the screen it turns around and descends one row; otherwise the fleet
    /// moves on. The invader then moves two pixels in the fleet's direction, descends eight
    /// pixels when the fleet descends, and shows its next frame. An invader that descends to
    /// the player's row ends the game. With the random number `r`, one time in fifty (and while
    /// fewer than three lasers fly), the closest invader to column `r / 50 % COLS` fires a laser.
    #[verifier::rlimit(50)]
    pub fn step_invaders_with(&mut self, r: u32)
        requires
            old(self).wf(),
            old(self).invaders is Some,
            old(self).gameover ==> fleet_below(&old(self).invaders->Some_0, y_cap() - 8),
        ensures
            final(self).wf(),
            invaders_stepped(&*old(self), &*final(self), r),
            final(self).dt == old(self).dt,
    {
        let ghost inv0 = self.invaders->Some_0;
        let ghost w0 = *self;
        proof {
            if !w0.gameover {
                lemma_fleet_above_player(inv0);
            }
        }
        let invaders = self.invaders.as_mut().unwrap();
        let (_, right, _, left) = invaders.get_bounds();
        let (invader, is_leader) = next_invader(&mut invaders.grid, &mut invaders.stepper);
        let ghost (x1, y1) = (invaders.stepper.x as int, invaders.stepper.y as int);
        let ghost before = invader_at(inv0.grid@, y1, x1);
        proof {
            assert(*invader == before);
            lemma_step_phase_found(inv0.stepper.x as int, inv0.stepper.y as int, x1, y1);
        }

        // The leader controls the fleet
        if is_leader {
            // The leader first commands the fleet to stop descending
            invaders.descend = false;

            // Then the leader redirects the fleet when they reach the boundaries
            match invaders.direction {
                Direction::Left => {
                    if left < 2 {
                        invaders.bounds.pos.x = invaders.bounds.pos.x + 2;
                        invaders.bounds.pos.y = invaders.bounds.pos.y + 8;
                        invaders.descend = true;
                        invaders.direction = Direction::Right;
                    } else {
                        invaders.bounds.pos.x = invaders.bounds.pos.x - 2;
                    }
                },
                Direction::Right => {
                    if right > SCREEN_WIDTH - 2 {
                        invaders.bounds.pos.x = invaders.bounds.pos.x - 2;
                        invaders.bounds.pos.y = invaders.bounds.pos.y + 8;
                        invaders.descend = true;
                        invaders.direction = Direction::Left;
                    } else {
                        invaders.bounds.pos.x = invaders.bounds.pos.x + 2;
                    }
                },
                Direction::Still => {},
            }
        }

        // Every invader in the fleet moves 2px per frame
        match invaders.direction {
            Direction::Left => invader.pos.x = invader.pos.x - 2,
            Direction::Right => invader.pos.x = invader.pos.x + 2,
            Direction::Still => {},
        }

        // And they descend 8px on command
        if invaders.descend {
            invader.pos.y = invader.pos.y + 8;

            // One of the end scenarios
            if self.player.is_some() && invader.pos.y + 8 >= self.player.as_ref().unwrap().pos.y {
                self.gameover = true;
                self.player = None;
            }
        }

        // Animate the invader
        invader.sprite.step_frame(&self.assets);
        let ghost moved = *invader;
        let ghost inv1 = *invaders;
        proof {
            assert(is_leader == leads(&inv0, x1, y1));
            lemma_step_keeps_fleet(inv0, *invaders, x1, y1, moved, w0.gameover, self.gameover);
        }

        proof {
            assert(self.invaders == Some(inv1));
            assert(self.wf());
        }
        let ghost w_mid = *self;
        self.fire_laser(r);
        proof {
            assert(self.invaders == Some(inv1));
            assert(w_mid.lasers == w0.lasers);
            let before = invader_at(inv0.grid@, y1, x1);
            assert(next_live_cell(&inv0, x1, y1));
            assert(invader_at(inv1.grid@, y1, x1) == moved);
            assert(moved.pos == stepped_position(before.pos, inv1.direction, inv1.descend));
            assert(moved.sprite.frame == crate::sprites::next_frame(before.sprite.frame));
            assert forall|rr: int, cc: int|
                0 <= rr < ROWS && 0 <= cc < COLS && (rr != y1 || cc != x1) implies #[trigger] inv1.grid@[rr]@[cc]
                == inv0.grid@[rr]@[cc] by {
                if rr != y1 {
                    assert(inv1.grid@[rr] == inv0.grid@[rr]);
                }
            }
            assert(self.gameover == (w0.gameover || reaches_player(w0.player, inv1.descend, moved.pos)));
        }
    }
}


/// The fleet turns around only at an edge of the screen, and descends exactly when it turns,
/// whichever edge it is: when the invader that leads steps while the fleet moves left with its
/// box less than two pixels from the left edge, or moves right with its box past two pixels from
/// the right edge, the fleet reverses, moves two pixels back and eight down, and descends;
/// otherwise the leader moves the fleet two pixels on, level. Any other invader leaves the fleet
/// as it was. The invader that steps moves two pixels in the fleet's new direction, and eight
/// down when the fleet descends.
pub proof fn lemma_fleet_turns_at_either_edge(w0: &World, w1: &World, r: u32)
    requires
        w0.wf(),
        w0.invaders is Some,
        invaders_stepped(w0, w1, r),
    ensures
        ({
            let inv0 = w0.invaders->Some_0;
            let inv1 = w1.invaders->Some_0;
            let (x1, y1) = (inv1.stepper.x as int, inv1.stepper.y as int);
            let left = inv0.bounds.pos.x as int;
            let right = inv0.bounds.pos.x + (inv0.bounds.right_col - inv0.bounds.left_col + 1) * 16;
            let at_edge = if inv0.direction == Direction::Left {
                left < 2
            } else {
                right > 222
            };
            let before = invader_at(inv0.grid@, y1, x1);
            let after = invader_at(inv1.grid@, y1, x1);
            &&& leads(&inv0, x1, y1) && at_edge ==> {
                &&& inv1.descend
                &&& inv1.direction != inv0.direction
                &&& inv1.direction != Direction::Still
                &&& inv1.bounds.pos.y == inv0.bounds.pos.y + 8
                &&& inv1.bounds.pos.x == if inv0.direction == Direction::Left {
                    left + 2
                } else {
                    left - 2
                }
            }
            &&& leads(&inv0, x1, y1) && !at_edge ==> {
                &&& !inv1.descend
                &&& inv1.direction == inv0.direction
                &&& inv1.bounds.pos.y == inv0.bounds.pos.y
                &&& inv1.bounds.pos.x == if inv0.direction == Direction::Left {
                    left - 2
                } else {
                    left + 2
                }
            }
            &&& !leads(&inv0, x1, y1) ==> inv1.bounds == inv0.bounds && inv1.direction
                == inv0.direction && inv1.descend == inv0.descend
            &&& after.pos.x == if inv1.direction == Direction::Left {
                before.pos.x - 2
            } else {
                before.pos.x + 2
            }
            &&& after.pos.y == if inv1.descend {
                before.pos.y + 8
            } else {
                before.pos.y as int
            }
        }),
{
}

impl World {
    /// With the random number `r`, one time in fifty (and while fewer than three lasers fly), the
    /// closest invader to column `r / 50 % COLS` fires a laser.
    fn fire_laser(&mut self, r: u32)
        requires
            old(self).wf(),
            old(self).invaders is Some,
        ensures
            final(self).wf(),
            ({
                let fires = (r as int) % 50 == 0 && old(self).lasers@.len() < 3;
                let inv = old(self).invaders->Some_0;
                &&& fires ==> {
                    &&& final(self).lasers@ == old(self).lasers@.push(final(self).lasers@.last())
                    &&& exists|sr: int, sc: int|
                        #[trigger] closest_live(inv.grid@, (r as int) / 50 % (COLS as int), sr, sc)
                            && fired_laser(&old(self).assets, final(self).lasers@.last(), invader_at(inv.grid@, sr, sc).pos)
                }
                &&& !fires ==> final(self).lasers == old(self).lasers
            }),
            final(self).invaders == old(self).invaders,
            final(self).shields == old(self).shields,
            final(self).player == old(self).player,
            final(self).bullet == old(self).bullet,
            final(self).collision == old(self).collision,
            final(self).score == old(self).score,
            final(self).dt == old(self).dt,
            final(self).gameover == old(self).gameover,
            final(self).assets == old(self).assets,
            final(self).debug == old(self).debug,
    {
        let ghost inv1 = self.invaders->Some_0;
        // They also shoot lasers at random with a 1:50 chance
        let r = r as usize;
        let chance = r % 50;
        if self.lasers.len() < 3 && chance == 0 {
            // Pick a random column to begin searching for an invader that can fire a laser
            let col = r / 50 % COLS;
            let invaders = self.invaders.as_ref().unwrap();
            let shooter = invaders.get_closest_invader(col);
            let ghost (sr, sc) = choose|sr: int, sc: int|
                #![trigger invader_at(inv1.grid@, sr, sc)]
                {
                    &&& live(inv1.grid@, sr, sc)
                    &&& *shooter == invader_at(inv1.grid@, sr, sc)
                    &&& forall|r2: int, c2: int|
                        #[trigger] live(inv1.grid@, r2, c2) ==> crate::invaders::closest_order(col as int, sr, sc)
                            <= crate::invaders::closest_order(col as int, r2, c2)
                };
            proof {
                assert(invader_ok(&inv1, sr, sc, self.gameover));
                assert(live_within_bounds(inv1.grid@, inv1.bounds));
                assert(self.assets.spec_sprites().contains_key(frame_key(Frame::Laser1)));
            }

            let laser = Laser {
                sprite: SpriteRef::with_period(&self.assets, Frame::Laser1, LASER_FRAME_NANOS),
                pos: shooter.pos.add(Point::new(LASER_OFFSET_X, LASER_OFFSET_Y)),
                dt: 0,
            };
            let ghost lasers0 = self.lasers@;
            self.lasers.push(laser);
            proof {
                assert(closest_live(inv1.grid@, (r as int) / 50 % (COLS as int), sr, sc));
                assert(fired_laser(&self.assets, self.lasers@.last(), invader_at(inv1.grid@, sr, sc).pos));
                assert(self.lasers@ =~= lasers0.push(self.lasers@.last()));
                assert forall|i: int| 0 <= i < self.lasers@.len() implies mover_ok(
                    #[trigger] self.lasers@[i].pos,
                    self.lasers@[i].sprite,
                    self.lasers@[i].dt,
                ) by {
                    if i < lasers0.len() {
                        assert(self.lasers@[i] == lasers0[i]);
                    }
                }
            }
        }
    }
}

/// A descending invader at `pos` reaches the row of the player, if there is one.
pub open spec fn reaches_player(player: Option<Player>, descend: bool, pos: Point) -> bool {
    player is Some && descend && pos.y + 8 >= PLAYER_START_Y
}

/// While the game goes on, the fleet stays above the player.
proof fn lemma_fleet_above_player(inv: Invaders)
    requires
        fleet_ok(&inv, false),
    ensures
        fleet_below(&inv, PLAYER_START_Y as int),
{
    let (r, c) = choose|r: int, c: int| live(inv.grid@, r, c);
    assert(invader_ok(&inv, r, c, false));
    assert(live_within_bounds(inv.grid@, inv.bounds));
    assert(r >= inv.bounds.top_row);
}

/// One step of the fleet keeps it well formed: the invader that steps reaches its place in the
/// formation of the new cycle, and the others keep theirs.
proof fn lemma_step_keeps_fleet(
    inv0: Invaders,
    inv1: Invaders,
    x1: int,
    y1: int,
    moved: Invader,
    gameover0: bool,
    gameover: bool,
)
    requires
        fleet_ok(&inv0, gameover0),
        fleet_below(&inv0, y_cap() - 8),
        next_live_cell(&inv0, x1, y1),
        inv1.stepper.x == x1,
        inv1.stepper.y == y1,
        inv1.bounds == if leads(&inv0, x1, y1) { led_bounds(&inv0) } else { inv0.bounds },
        inv1.direction == if leads(&inv0, x1, y1) { led_direction(&inv0) } else { inv0.direction },
        inv1.descend == if leads(&inv0, x1, y1) { led_descend(&inv0) } else { inv0.descend },
        inv1.grid@.len() == inv0.grid@.len(),
        inv1.grid@[y1]@ == inv0.grid@[y1]@.update(x1, Some(moved)),
        forall|rr: int| 0 <= rr < inv0.grid@.len() && rr != y1 ==> #[trigger] inv1.grid@[rr] == inv0.grid@[rr],
        moved.pos == stepped_position(invader_at(inv0.grid@, y1, x1).pos, inv1.direction, inv1.descend),
        moved.sprite.width == invader_at(inv0.grid@, y1, x1).sprite.width,
        moved.sprite.height == invader_at(inv0.grid@, y1, x1).sprite.height,
        gameover0 ==> gameover,
        !gameover ==> !(inv1.descend && moved.pos.y + 8 >= PLAYER_START_Y),
    ensures
        fleet_ok(&inv1, gameover),
        forall|b: int| #[trigger] fleet_below(&inv0, b) ==> fleet_below(&inv1, b + 8),
{
    let (sx, sy) = (inv0.stepper.x as int, inv0.stepper.y as int);
    let lead = leads(&inv0, x1, y1);
    assert(live(inv1.grid@, y1, x1));
    assert(invader_ok(&inv0, y1, x1, gameover0));
    lemma_step_phase_found(sx, sy, x1, y1);
    assert forall|rr: int, cc: int| live(inv1.grid@, rr, cc) <==> live(inv0.grid@, rr, cc) by {
        if rr == y1 {
        } else if 0 <= rr < inv1.grid@.len() {
            assert(inv1.grid@[rr] == inv0.grid@[rr]);
        }
    }
    assert forall|rr: int, cc: int| #[trigger] live(inv1.grid@, rr, cc) implies invader_ok(
        &inv1,
        rr,
        cc,
        gameover,
    ) by {
        assert(live(inv0.grid@, rr, cc));
        assert(invader_ok(&inv0, rr, cc, gameover0));
        if rr == y1 && cc == x1 {
            assert(invader_at(inv1.grid@, rr, cc) == moved);
            assert(stepped(&inv1, rr, cc));
        } else {
            assert(rr < ROWS && cc < COLS);
            lemma_step_phase(sx, sy, x1, y1, cc, rr);
            assert(invader_at(inv1.grid@, rr, cc) == invader_at(inv0.grid@, rr, cc)) by {
                if rr == y1 {
                    assert(inv1.grid@[rr]@[cc] == inv0.grid@[rr]@[cc]);
                } else {
                    assert(inv1.grid@[rr] == inv0.grid@[rr]);
                }
            }
        }
    }
    assert forall|rr: int| 0 <= rr < ROWS implies #[trigger] inv1.grid@[rr]@.len() == COLS by {
        if rr != y1 {
            assert(inv1.grid@[rr] == inv0.grid@[rr]);
        }
    }
    assert(live_within_bounds(inv1.grid@, inv1.bounds));
    assert(any_live(inv1.grid@));
    assert forall|b: int| #[trigger] fleet_below(&inv0, b) implies fleet_below(&inv1, b + 8) by {
        assert forall|rr: int, cc: int| #[trigger] live(inv1.grid@, rr, cc) implies invader_at(
            inv1.grid@,
            rr,
            cc,
        ).pos.y <= b + 8 by {
            assert(live(inv0.grid@, rr, cc));
            if rr == y1 && cc == x1 {
                assert(invader_at(inv1.grid@, rr, cc) == moved);
            } else if rr == y1 {
                assert(inv1.grid@[rr]@[cc] == inv0.grid@[rr]@[cc]);
            } else {
                assert(inv1.grid@[rr] == inv0.grid@[rr]);
            }
        }
    }
}


/// The most fleet steps that one update can take: each step takes the fleet at most eight rows
/// down, and once the game has ended the steps left in the update go on, so the fleet has to
/// stay within `y_cap`, a limit set by the size of `usize`.
pub open spec fn max_fleet_steps() -> int {
    (y_cap() - 8 - PLAYER_START_Y) / 8
}

/// The most fleet steps that one update can take (see `max_fleet_steps`).
pub fn fleet_step_limit() -> (n: u128)
    ensures
        n == max_fleet_steps(),
{
    ((usize::MAX - 0x4_0000 - 8 - PLAYER_START_Y) / 8) as u128
}

impl World {
    /// Step the fleet once, with a random number from the operating system deciding whether an
    /// invader fires. The result is that of `step_invaders_with` for that number.
    pub fn step_invaders(&mut self)
        requires
            old(self).wf(),
            old(self).invaders is Some,
            old(self).gameover ==> fleet_below(&old(self).invaders->Some_0, y_cap() - 8),
        ensures
            final(self).wf(),
            exists|r: u32| invaders_stepped(&*old(self), &*final(self), r),
            final(self).dt == old(self).dt,
    {
        let ghost w0 = *self;
        let r = next_random(&mut self.prng);
        self.step_invaders_with(r);
        proof {
            assert(invaders_stepped(&w0, &*self, r));
        }
    }

    /// Start an update: count `dt` more nanoseconds towards the fleet's next step, and forget
    /// the collisions of the previous update.
    pub fn begin_update(&mut self, dt: u128)
        requires
            old(self).wf(),
            old(self).dt + dt <= max_duration_nanos(),
        ensures
            final(self).wf(),
            begun(&*old(self), &*final(self), dt),
    {
        // Advance the timer by the delta time
        self.dt = self.dt + dt;

        // Clear the collision details
        self.collision.clear();
    }

    /// Step the invaders one by one, once for every whole frame of accumulated time, while the
    /// game goes on.
    pub fn step_fleet(&mut self)
        requires
            old(self).wf(),
            !old(self).gameover && old(self).invaders is Some ==> old(self).dt / ONE_FRAME
                <= max_fleet_steps(),
        ensures
            final(self).wf(),
            fleet_ran(&*old(self), &*final(self)),
            final(self).collision == old(self).collision,
    {
        if !self.gameover && self.invaders.is_some() {
            let ghost start: int = self.dt as int;
            let ghost f: int = ONE_FRAME as int;
            let ghost total: int = start / f;
            let ghost mut k: int = 0;
            let ghost mut ws: Seq<World> = seq![*self];
            let ghost mut rs: Seq<u32> = Seq::empty();
            proof {
                lemma_fleet_above_player(self.invaders->Some_0);
            }
            while self.dt >= ONE_FRAME
                invariant
                    self.wf(),
                    self.invaders is Some,
                    0 <= k <= total,
                    total <= max_fleet_steps(),
                    f == ONE_FRAME,
                    total == start / f,
                    start == old(self).dt,
                    self.dt == start - k * f,
                    fleet_below(&self.invaders->Some_0, PLAYER_START_Y + 8 * k),
                    ws.len() == k + 1,
                    rs.len() == k,
                    ws[0] == *old(self),
                    ws.last() == *self,
                    forall|j: int| 0 <= j < k ==> frame_stepped(#[trigger] ws[j], ws[j + 1], rs[j]),
                    self.collision == old(self).collision,
                decreases self.dt,
            {
                proof {
                    vstd::arithmetic::div_mod::lemma_fundamental_div_mod(start, f);
                    assert(k < total) by (nonlinear_arith)
                        requires
                            start - k * f >= f,
                            start == f * total + start % f,
                            start % f < f,
                            f > 0,
                    ;
                }
                let ghost before = *self;
                self.dt = self.dt - ONE_FRAME;
                self.step_invaders();
                proof {
                    let r = choose|r: u32| invaders_stepped(&before_dt(before), &*self, r);
                    assert(invaders_stepped(&before, &*self, r));
                    assert(frame_stepped(before, *self, r));
                    let ws0 = ws;
                    ws = ws.push(*self);
                    rs = rs.push(r);
                    k = k + 1;
                    assert forall|j: int| 0 <= j < k implies frame_stepped(#[trigger] ws[j], ws[j + 1], rs[j]) by {
                        if j < k - 1 {
                            assert(ws[j] == ws0[j]);
                            assert(ws[j + 1] == ws0[j + 1]);
                        }
                    }
                }
            }
            proof {
                vstd::arithmetic::div_mod::lemma_fundamental_div_mod(start, f);
                assert(k == total) by (nonlinear_arith)
                    requires
                        start - k * f < f,
                        start - k * f >= 0,
                        start == f * total + start % f,
                        0 <= start % f < f,
                        f > 0,
                ;
                assert(fleet_chain(ws, rs, total));
            }
        }
    }
}

/// `w1` is `w0` after one frame of the fleet: the clock lost one frame, and the fleet stepped with
/// the random number `r`.
pub open spec fn frame_stepped(w0: World, w1: World, r: u32) -> bool {
    w1.dt == w0.dt - ONE_FRAME && invaders_stepped(&w0, &w1, r)
}

/// `w` with one frame taken off its clock.
pub open spec fn before_dt(w: World) -> World {
    World { dt: (w.dt - ONE_FRAME) as u128, ..w }
}

/// The worlds `ws` go from one to the next by `k` frames of the fleet, with the random numbers
/// `rs`.
pub open spec fn fleet_chain(ws: Seq<World>, rs: Seq<u32>, k: int) -> bool {
    &&& ws.len() == k + 1
    &&& rs.len() == k
    &&& forall|j: int| 0 <= j < k ==> frame_stepped(#[trigger] ws[j], ws[j + 1], rs[j])
}

/// `w1` is `w0` after the fleet's phase of an update: while the game goes on, the fleet takes
/// one step for every whole frame on the clock, each with a random number of its own, and the
/// clock keeps what is left; otherwise nothing changes.
pub open spec fn fleet_ran(w0: &World, w1: &World) -> bool {
    if w0.gameover || w0.invaders is None {
        *w1 == *w0
    } else {
        &&& w1.dt == w0.dt % ONE_FRAME
        &&& exists|ws: Seq<World>, rs: Seq<u32>|
            #[trigger] fleet_chain(ws, rs, (w0.dt / ONE_FRAME) as int) && ws[0] == *w0 && ws.last() == *w1
    }
}

/// `w1` is `w0` at the start of an update of `dt` nanoseconds: the clock advanced, and the
/// collision details of the previous update forgotten.
pub open spec fn begun(w0: &World, w1: &World, dt: u128) -> bool {
    &&& w1.dt == w0.dt + dt
    &&& w1.collision.bullet_set().is_empty()
    &&& w1.collision.laser_set().is_empty()
    &&& w1.collision.pixel_mask == w0.collision.pixel_mask
    &&& w1.invaders == w0.invaders
    &&& w1.lasers == w0.lasers
    &&& w1.shields == w0.shields
    &&& w1.player == w0.player
    &&& w1.bullet == w0.bullet
    &&& w1.gameover == w0.gameover
    &&& w1.score == w0.score
    &&& w1.assets == w0.assets
    &&& w1.prng == w0.prng
    &&& w1.debug == w0.debug
}

/// `w1` is `w0` after the player's phase of an update of `dt` nanoseconds with the controls:
/// while the game goes on, the player moves (see `moved_player`) and fires the bullet when asked
/// and none flies; otherwise nothing changes.
pub open spec fn player_stepped(w0: &World, w1: &World, controls: Controls, dt: u128) -> bool {
    let p0 = w0.player->Some_0;
    let p1 = w1.player->Some_0;
    let fire = controls.fire && w0.bullet is None;
    &&& w0.gameover || w0.player is None ==> *w1 == *w0
    &&& !w0.gameover && w0.player is Some ==> {
        &&& w1.player is Some
        &&& moved_player(&w0.assets, p0, p1, controls, dt)
        &&& fire ==> fired_bullet(&w0.assets, w1.bullet, p1.pos)
        &&& !fire ==> w1.bullet == w0.bullet
    }
    &&& w1.invaders == w0.invaders
    &&& w1.lasers == w0.lasers
    &&& w1.shields == w0.shields
    &&& w1.collision == w0.collision
    &&& w1.gameover == w0.gameover
    &&& w1.score == w0.score
    &&& w1.dt == w0.dt
    &&& w1.assets == w0.assets
    &&& w1.prng == w0.prng
    &&& w1.debug == w0.debug
}

/// `w1` is `w0` after the bullet's phase of an update of `dt` nanoseconds, which returned `hit`:
/// the bullet flies and vanishes at the top of the screen, or hits an invader, or a shield, or
/// nothing.
pub open spec fn bullet_stepped(w0: &World, w1: &World, hit: Option<(Bullet, Invader)>, dt: u128) -> bool {
    &&& w0.bullet is None ==> *w1 == *w0 && hit is None
    &&& bullet_left_screen(w0, w1, hit, dt)
    &&& bullet_hit_invader(w0, w1, hit, dt)
    &&& bullet_missed_fleet(w0, w1, hit, dt)
    &&& w1.lasers == w0.lasers
    &&& w1.player == w0.player
    &&& w1.score == w0.score
    &&& w1.dt == w0.dt
    &&& w1.assets == w0.assets
    &&& w1.debug == w0.debug
    &&& w1.prng == w0.prng
    &&& w1.shields == w0.shields
    &&& w1.collision.laser_details == w0.collision.laser_details
    &&& w1.collision.pixel_mask == w0.collision.pixel_mask
}

/// The part of `dt` nanoseconds below one second: what `Duration::subsec_nanos` gives for a
/// duration of `dt` nanoseconds.
pub open spec fn subsec(dt: u128) -> u32 {
    (dt % NANOS_PER_SEC) as u32
}

/// Moving the player does not wrap around: it moves left only by as many pixels as its
/// position, and the screen is at least twice as wide as the player.
pub open spec fn player_move_ok(w: &World, controls: Controls, dt: u128) -> bool {
    let p = w.player->Some_0;
    w.player is Some && !w.gameover ==> {
        &&& (controls.direction == Direction::Left && p.pos.x > p.sprite.width ==> elapsed_frames(
            p.dt,
            subsec(dt),
        ) <= p.pos.x)
        &&& (controls.direction == Direction::Right ==> p.sprite.width * 2 <= SCREEN_WIDTH)
    }
}

/// `bullet` is a bullet just fired from a player at `pos`: at the cannon, showing its only frame
/// with a fresh clock.
pub open spec fn fired_bullet(assets: &Assets, bullet: Option<Bullet>, pos: Point) -> bool {
    let b = bullet->Some_0;
    let cached = assets.spec_sprites()[frame_key(Frame::Bullet1)];
    &&& bullet is Some
    &&& b.pos == (Point { x: (pos.x + BULLET_OFFSET_X) as usize, y: (pos.y + BULLET_OFFSET_Y) as usize })
    &&& b.sprite.frame == Frame::Bullet1
    &&& b.sprite.width == cached.0
    &&& b.sprite.height == cached.1
    &&& b.sprite.pixels == cached.2
    &&& b.sprite.duration == BULLET_FRAME_NANOS
    &&& b.sprite.dt == 0
    &&& b.dt == 0
}

/// The player after `dt` nanoseconds with the controls: it moves one pixel per whole frame
/// towards the pressed direction, unless it is at the edge of the screen, and animates while it
/// moves.
pub open spec fn moved_player(assets: &Assets, p0: Player, p1: Player, controls: Controls, dt: u128) -> bool {
    let frames = elapsed_frames(p0.dt, subsec(dt));
    let moving = if controls.direction == Direction::Left {
        p0.pos.x > p0.sprite.width
    } else if controls.direction == Direction::Right {
        p0.pos.x < SCREEN_WIDTH - p0.sprite.width * 2
    } else {
        false
    };
    &&& p1.dt == leftover_nanos(p0.dt, subsec(dt))
    &&& p1.pos.y == p0.pos.y
    &&& p1.pos.x == if !moving {
        p0.pos.x as int
    } else if controls.direction == Direction::Left {
        p0.pos.x - frames
    } else {
        p0.pos.x + frames
    }
    &&& moving ==> animated(assets, p0.sprite, p1.sprite, dt)
    &&& !moving ==> p1.sprite == p0.sprite
}

/// At most 61 whole frames pass between two updates: less than one frame was left over, and
/// less than one second is added.
pub proof fn lemma_frames_per_update(acc: usize, n: u32)
    requires
        acc < FRAME_NANOS,
        n < 1_000_000_000,
    ensures
        elapsed_frames(acc, n) <= 61,
        0 <= leftover_nanos(acc, n) < FRAME_NANOS,
{
    let total = acc + n;
    let f = FRAME_NANOS as int;
    vstd::arithmetic::div_mod::lemma_fundamental_div_mod(total, f);
    assert(total / f <= 61) by (nonlinear_arith)
        requires
            total == f * (total / f) + total % f,
            0 <= total % f,
            total < 62 * f,
            f > 0,
    ;
}

impl World {
    /// Handle player movement and animation, while the game goes on: the player moves with the
    /// controls, and fires the bullet when asked and none flies.
    pub fn step_player(&mut self, controls: &Controls, dt: u128)
        requires
            old(self).wf(),
            dt <= max_duration_nanos(),
            player_move_ok(&*old(self), *controls, dt),
        ensures
            final(self).wf(),
            player_stepped(&*old(self), &*final(self), *controls, dt),
    {
        if self.gameover || self.player.is_none() {
            return;
        }
        let ghost p0 = self.player->Some_0;
        proof {
            lemma_frames_per_update(p0.dt, subsec(dt));
            assert(self.assets.spec_sprites().contains_key(frame_key(Frame::Player1)));
            assert(self.assets.spec_sprites().contains_key(frame_key(p0.sprite.frame)));
            assert(self.assets.spec_sprites().contains_key(frame_key(crate::sprites::next_frame(p0.sprite.frame))));
            assert(self.assets.spec_sprites().contains_key(frame_key(Frame::Bullet1)));
        }
        let player = self.player.as_mut().unwrap();
        let frames = advance_frames(&mut player.dt, (dt % NANOS_PER_SEC) as u32);
        let width = player.sprite.width();

        match controls.direction {
            Direction::Left => {
                if player.pos.x > width {
                    player.pos.x = player.pos.x - frames;
                    player.sprite.animate_nanos(&self.assets, dt);
                }
            },
            Direction::Right => {
                if player.pos.x < SCREEN_WIDTH - width * 2 {
                    player.pos.x = player.pos.x + frames;
                    player.sprite.animate_nanos(&self.assets, dt);
                }
            },
            Direction::Still => {},
        }

        if controls.fire && self.bullet.is_none() {
            self.bullet = Some(
                Bullet {
                    sprite: SpriteRef::with_period(&self.assets, Frame::Bullet1, BULLET_FRAME_NANOS),
                    pos: player.pos.add(Point::new(BULLET_OFFSET_X, BULLET_OFFSET_Y)),
                    dt: 0,
                },
            );
        }
    }
}



/// The sprite `s` after `dt` nanoseconds of animation.
pub open spec fn animated_sprite(assets: &Assets, s: SpriteRef, dt: u128) -> SpriteRef {
    let steps = crate::sprites::animation_steps(s, dt);
    let frame = crate::sprites::frame_after(s.frame, steps);
    SpriteRef {
        width: s.width,
        height: s.height,
        pixels: if steps > 0 {
            assets.spec_sprites()[frame_key(frame)].2
        } else {
            s.pixels
        },
        frame,
        duration: s.duration,
        dt: crate::sprites::animation_clock(s, dt),
    }
}

/// How far the bullet flies in `dt` nanoseconds: four pixels per whole frame.
pub open spec fn bullet_velocity(b: Bullet, dt: u128) -> int {
    elapsed_frames(b.dt, subsec(dt)) * 4
}

/// The bullet `b` after it flew for `dt` nanoseconds: higher by its velocity, animated, with
/// the whole frames taken out of its clock.
pub open spec fn flown_bullet(assets: &Assets, b: Bullet, dt: u128) -> Bullet {
    Bullet {
        sprite: animated_sprite(assets, b.sprite, dt),
        pos: Point { x: b.pos.x, y: (b.pos.y - bullet_velocity(b, dt)) as usize },
        dt: leftover_nanos(b.dt, subsec(dt)) as usize,
    }
}

/// Flying the bullet does not wrap around: where the flown bullet overlaps the fleet's box, it
/// lies neither left of nor above the box's top-left corner.
pub open spec fn bullet_step_ok(w: &World, dt: u128) -> bool {
    let b = w.bullet->Some_0;
    let inv = w.invaders->Some_0;
    let f = flown_bullet(&w.assets, b, dt);
    w.bullet is Some && w.invaders is Some && b.pos.y > bullet_velocity(b, dt) && rects_intersect(
        crate::collision::sprite_ref_rect(f.pos, f.sprite),
        crate::collision::fleet_rect(inv.bounds),
    ) ==> f.pos.x >= inv.bounds.pos.x && f.pos.y >= inv.bounds.pos.y
}

/// The bullet of `w0` flies off the top of the screen in `dt` nanoseconds and vanishes; nothing
/// else changes.
pub open spec fn bullet_left_screen(w0: &World, w1: &World, hit: Option<(Bullet, Invader)>, dt: u128) -> bool {
    let b0 = w0.bullet->Some_0;
    w0.bullet is Some && b0.pos.y <= bullet_velocity(b0, dt) ==> {
        &&& w1.bullet is None
        &&& hit is None
        &&& w1.invaders == w0.invaders
        &&& w1.gameover == w0.gameover
        &&& w1.collision == w0.collision
    }
}

/// The flown bullet of `w0` hit a candidate invader: the two are returned, the bullet is gone,
/// the invader killed, and the game is over when no invader is left.
pub open spec fn bullet_hit_invader(w0: &World, w1: &World, hit: Option<(Bullet, Invader)>, dt: u128) -> bool {
    let b0 = w0.bullet->Some_0;
    let b1 = flown_bullet(&w0.assets, b0, dt);
    let r1 = crate::collision::sprite_ref_rect(b1.pos, b1.sprite);
    let inv0 = w0.invaders->Some_0;
    w0.bullet is Some && b0.pos.y > bullet_velocity(b0, dt) && hit is Some ==> {
        &&& w0.invaders is Some
        &&& hit->Some_0.0 == b1
        &&& w1.bullet is None
        &&& exists|c: usize, r: usize|
            {
                &&& #[trigger] w1.collision.bullet_set().contains(BulletDetail::Invader(c, r))
                &&& live(inv0.grid@, r as int, c as int)
                &&& hit->Some_0.1 == invader_at(inv0.grid@, r as int, c as int)
                &&& rects_intersect(r1, crate::collision::invader_rect(inv0.grid@, r as int, c as int))
                &&& killed(inv0, w1.invaders, r as int, c as int)
            }
        &&& w1.gameover == (w0.gameover || w1.invaders is None)
        &&& forall|d: BulletDetail|
            #[trigger] w1.collision.bullet_set().contains(d) <==> crate::collision::bullet_candidates(
                w0.collision.bullet_set(),
                &inv0,
                r1,
                d,
            )
    }
}

/// The flown bullet of `w0` hit no invader: the fleet is unchanged, no candidate invader
/// overlaps the bullet, and the bullet is destroyed exactly when it overlaps a shield.
pub open spec fn bullet_missed_fleet(w0: &World, w1: &World, hit: Option<(Bullet, Invader)>, dt: u128) -> bool {
    let b0 = w0.bullet->Some_0;
    let b1 = flown_bullet(&w0.assets, b0, dt);
    let r1 = crate::collision::sprite_ref_rect(b1.pos, b1.sprite);
    let inv0 = w0.invaders->Some_0;
    let shot = exists|k: int| crate::collision::shield_hit(r1, w0.shields@, k);
    w0.bullet is Some && b0.pos.y > bullet_velocity(b0, dt) && hit is None ==> {
        &&& w1.invaders == w0.invaders
        &&& w1.gameover == w0.gameover
        &&& w0.invaders is Some && rects_intersect(r1, crate::collision::fleet_rect(inv0.bounds))
            ==> forall|c: usize, r: usize|
            #[trigger] w1.collision.bullet_set().contains(BulletDetail::Invader(c, r)) ==> !rects_intersect(
                r1,
                crate::collision::invader_rect(inv0.grid@, r as int, c as int),
            )
        &&& forall|d: BulletDetail|
            #[trigger] w1.collision.bullet_set().contains(d) <==> {
                ||| w0.invaders is Some && crate::collision::bullet_candidates(
                    w0.collision.bullet_set(),
                    &inv0,
                    r1,
                    d,
                )
                ||| w0.invaders is None && w0.collision.bullet_set().contains(d)
                ||| d is Shield && crate::collision::shield_hit(r1, w0.shields@, d->Shield_0 as int)
            }
        &&& shot ==> w1.bullet is None
        &&& !shot ==> w1.bullet == Some(b1)
    }
}

/// Every live invader of a well-formed fleet has a rectangle that fits in a `usize`.
proof fn lemma_fleet_fits(inv: Invaders, gameover: bool)
    requires
        fleet_ok(&inv, gameover),
    ensures
        crate::collision::invader_rects_fit(inv.grid@),
{
    assert forall|r: int, c: int| #[trigger] live(inv.grid@, r, c) implies rect_fits(
        invader_at(inv.grid@, r, c).pos,
        invader_at(inv.grid@, r, c).sprite.width,
        invader_at(inv.grid@, r, c).sprite.height,
    ) by {
        assert(invader_ok(&inv, r, c, gameover));
        assert(live_within_bounds(inv.grid@, inv.bounds));
        assert(c <= inv.bounds.right_col);
        assert(inv.bounds.left_col <= c);
        assert((c - inv.bounds.left_col) * GRID_X <= (inv.bounds.right_col - inv.bounds.left_col) * GRID_X) by (nonlinear_arith)
            requires c - inv.bounds.left_col <= inv.bounds.right_col - inv.bounds.left_col;
    }
}

/// Killing one live invader and shrinking the bounds around the others keeps the fleet well
/// formed: the fleet origin does not move, so every other invader keeps its place.
proof fn lemma_kill_keeps_fleet(inv0: Invaders, inv1: Invaders, r: int, c: int, gameover: bool)
    requires
        fleet_ok(&inv0, gameover),
        live(inv0.grid@, r, c),
        inv1.grid@.len() == inv0.grid@.len(),
        forall|i: int|
            0 <= i < inv0.grid@.len() ==> #[trigger] inv1.grid@[i]@ == crate::collision::row_without(
                inv0.grid@,
                r,
                c,
                i,
            ),
        inv1.stepper == inv0.stepper,
        inv1.direction == inv0.direction,
        inv1.descend == inv0.descend,
        any_live(inv1.grid@),
        crate::invaders::tight_bounds(inv1.grid@, inv1.bounds),
        inv1.bounds.pos.x == inv0.bounds.pos.x + (inv1.bounds.left_col - inv0.bounds.left_col) * GRID_X,
        inv1.bounds.pos.y == inv0.bounds.pos.y + (inv1.bounds.top_row - inv0.bounds.top_row) * GRID_Y,
        bounds_ordered(inv1.bounds),
        live_within_bounds(inv1.grid@, inv1.bounds),
    ensures
        fleet_ok(&inv1, gameover),
{
    assert forall|rr: int, cc: int| #[trigger] live(inv1.grid@, rr, cc) implies live(inv0.grid@, rr, cc)
        && invader_at(inv1.grid@, rr, cc) == invader_at(inv0.grid@, rr, cc) by {
        assert(inv1.grid@[rr]@ == crate::collision::row_without(inv0.grid@, r, c, rr));
    }
    assert forall|rr: int| 0 <= rr < ROWS implies #[trigger] inv1.grid@[rr]@.len() == COLS by {
        assert(inv1.grid@[rr]@ == crate::collision::row_without(inv0.grid@, r, c, rr));
    }
    assert(live_within_bounds(inv0.grid@, inv0.bounds));
    let b0 = inv0.bounds;
    let b1 = inv1.bounds;
    let rc = choose|rr: int| live(inv1.grid@, rr, b1.right_col as int);
    let lc = choose|rr: int| live(inv1.grid@, rr, b1.left_col as int);
    let tr = choose|cc: int| live(inv1.grid@, b1.top_row as int, cc);
    assert(live(inv0.grid@, rc, b1.right_col as int));
    assert(live(inv0.grid@, lc, b1.left_col as int));
    assert(live(inv0.grid@, b1.top_row as int, tr));
    assert(b1.right_col <= b0.right_col);
    assert(b0.left_col <= b1.left_col);
    assert(b0.top_row <= b1.top_row);
    assert(origin_x(b1) == origin_x(b0)) by (nonlinear_arith)
        requires
            b1.pos.x == b0.pos.x + (b1.left_col - b0.left_col) * GRID_X,
            origin_x(b1) == b1.pos.x - b1.left_col * GRID_X,
            origin_x(b0) == b0.pos.x - b0.left_col * GRID_X;
    assert(origin_y(b1) == origin_y(b0)) by (nonlinear_arith)
        requires
            b1.pos.y == b0.pos.y + (b1.top_row - b0.top_row) * GRID_Y,
            origin_y(b1) == b1.pos.y - b1.top_row * GRID_Y,
            origin_y(b0) == b0.pos.y - b0.top_row * GRID_Y;
    assert(fleet_box(b1).1 <= fleet_box(b0).1) by (nonlinear_arith)
        requires
            fleet_box(b1).1 == b1.pos.x + (b1.right_col - b1.left_col + 1) * GRID_X,
            fleet_box(b0).1 == b0.pos.x + (b0.right_col - b0.left_col + 1) * GRID_X,
            b1.pos.x == b0.pos.x + (b1.left_col - b0.left_col) * GRID_X,
            b1.right_col <= b0.right_col;
    // The top row holds a live invader, which lies in formation at most eight rows above it.
    assert(invader_ok(&inv0, b1.top_row as int, tr, gameover));
    assert(fleet_below(&inv0, y_cap()));
    assert(b1.pos.y <= y_cap() + 8) by {
        assert(b1.pos.y == origin_y(b1) + b1.top_row * GRID_Y);
        assert(invader_at(inv0.grid@, b1.top_row as int, tr).pos.y <= y_cap());
    }
    assert forall|rr: int, cc: int| #[trigger] live(inv1.grid@, rr, cc) implies invader_ok(
        &inv1,
        rr,
        cc,
        gameover,
    ) by {
        assert(live(inv0.grid@, rr, cc));
        assert(invader_ok(&inv0, rr, cc, gameover));
    }
    assert(fleet_below(&inv1, y_cap())) by {
        assert forall|rr: int, cc: int| #[trigger] live(inv1.grid@, rr, cc) implies invader_at(
            inv1.grid@,
            rr,
            cc,
        ).pos.y <= y_cap() by {
            assert(live(inv0.grid@, rr, cc));
        }
    }
}

/// Emptying the cell of a live invader leaves a well-shaped grid whose live cells are those of
/// the fleet but that one, within the fleet's bounds; the killed fleet is described by the new
/// grid.
proof fn lemma_kill_cells(inv0: Invaders, inv1: Invaders, r: int, c: int, gameover: bool)
    requires
        fleet_ok(&inv0, gameover),
        live(inv0.grid@, r, c),
        inv1.grid@.len() == inv0.grid@.len(),
        forall|i: int|
            0 <= i < inv0.grid@.len() ==> #[trigger] inv1.grid@[i]@ == crate::collision::row_without(
                inv0.grid@,
                r,
                c,
                i,
            ),
        inv1.bounds == inv0.bounds,
    ensures
        grid_shaped(inv1.grid@),
        bounds_ordered(inv1.bounds),
        live_within_bounds(inv1.grid@, inv1.bounds),
        forall|rr: int, cc: int| #[trigger] live(inv1.grid@, rr, cc) <==> live(inv0.grid@, rr, cc) && (rr != r || cc != c),
        forall|rr: int, cc: int| #[trigger] live(inv1.grid@, rr, cc) ==> invader_at(inv1.grid@, rr, cc) == invader_at(inv0.grid@, rr, cc),
        any_live(inv1.grid@) == any_left(grid_without(inv0, r, c)),
{
    let grid = grid_without(inv0, r, c);
    assert forall|rr: int, cc: int| #[trigger] live(inv1.grid@, rr, cc) <==> live(inv0.grid@, rr, cc) && (rr != r || cc != c) by {
        if 0 <= rr < inv0.grid@.len() {
            assert(inv1.grid@[rr]@ == crate::collision::row_without(inv0.grid@, r, c, rr));
        }
    }
    assert forall|rr: int, cc: int| #[trigger] live(inv1.grid@, rr, cc) implies invader_at(inv1.grid@, rr, cc) == invader_at(inv0.grid@, rr, cc) by {
        assert(inv1.grid@[rr]@ == crate::collision::row_without(inv0.grid@, r, c, rr));
    }
    assert forall|rr: int| 0 <= rr < ROWS implies #[trigger] inv1.grid@[rr]@.len() == COLS by {
        assert(inv1.grid@[rr]@ == crate::collision::row_without(inv0.grid@, r, c, rr));
    }
    assert(live_within_bounds(inv0.grid@, inv0.bounds));
    if any_live(inv1.grid@) {
        let (rr, cc) = choose|rr: int, cc: int| live(inv1.grid@, rr, cc);
        assert(inv1.grid@[rr]@ == grid[rr]);
        assert(grid[rr][cc] is Some);
    }
    if any_left(grid) {
        let (rr, cc) = choose|rr: int, cc: int| 0 <= rr < grid.len() && 0 <= cc < grid[rr].len() && #[trigger] grid[rr][cc] is Some;
        assert(inv1.grid@[rr]@ == grid[rr]);
        assert(live(inv1.grid@, rr, cc));
    }
}

impl World {
    /// Handle the bullet's movement and collisions.
    ///
    /// The bullet flies four pixels up per whole frame of `dt`; when it would leave the top of
    /// the screen it vanishes. Otherwise it animates, and hits the first candidate invader that
    /// it overlaps: both are destroyed and returned, and the fleet's bounds shrink around the
    /// invaders left, or, when none is left, the fleet is gone and the game is over. A bullet
    /// that hit no invader is destroyed by the shields it overlaps.
    pub fn step_bullet(&mut self, dt: u128) -> (hit: Option<(Bullet, Invader)>)
        requires
            old(self).wf(),
            dt <= max_duration_nanos(),
            bullet_step_ok(&*old(self), dt),
            old(self).invaders is Some ==> crate::collision::invader_details_live(
                old(self).collision.bullet_set(),
                old(self).invaders->Some_0.grid@,
            ),
        ensures
            final(self).wf(),
            bullet_stepped(&*old(self), &*final(self), hit, dt),
    {
        if self.bullet.is_none() {
            return None;
        }
        let ghost w0 = *self;
        let ghost b0 = self.bullet->Some_0;
        proof {
            lemma_frames_per_update(b0.dt, subsec(dt));
            assert(self.assets.spec_sprites().contains_key(frame_key(b0.sprite.frame)));
            assert(self.assets.spec_sprites().contains_key(frame_key(crate::sprites::next_frame(b0.sprite.frame))));
        }
        let bullet = self.bullet.as_mut().unwrap();
        let frames = advance_frames(&mut bullet.dt, (dt % NANOS_PER_SEC) as u32);
        let velocity = frames * 4;
        if bullet.pos.y > velocity {
            bullet.pos.y = bullet.pos.y - velocity;
            bullet.sprite.animate_nanos(&self.assets, dt);
            let ghost b1 = *bullet;
            proof {
                assert(b1 == flown_bullet(&w0.assets, b0, dt));
            }
            let mut hit: Option<(Bullet, Invader)> = None;
            let ghost mut kc: usize = 0;
            let ghost mut kr: usize = 0;
            if self.invaders.is_some() {
                let invaders = self.invaders.as_mut().unwrap();
                let ghost inv0 = *invaders;
                proof {
                    lemma_fleet_fits(inv0, w0.gameover);
                }
                hit = self.collision.bullet_to_invader(&mut self.bullet, invaders);
                if hit.is_some() {
                    let ghost inv_mid = *invaders;
                    let ghost (c, r) = choose|c: usize, r: usize|
                        {
                            &&& #[trigger] self.collision.bullet_set().contains(
                                BulletDetail::Invader(c, r),
                            )
                            &&& live(inv0.grid@, r as int, c as int)
                            &&& hit->Some_0.1 == invader_at(inv0.grid@, r as int, c as int)
                            &&& rects_intersect(
                                crate::collision::sprite_ref_rect(b1.pos, b1.sprite),
                                crate::collision::invader_rect(inv0.grid@, r as int, c as int),
                            )
                            &&& inv_mid.grid@.len() == inv0.grid@.len()
                            &&& forall|i: int|
                                0 <= i < inv0.grid@.len() ==> #[trigger] inv_mid.grid@[i]@
                                    == crate::collision::row_without(inv0.grid@, r as int, c as int, i)
                        };
                    proof {
                        lemma_kill_cells(inv0, inv_mid, r as int, c as int, w0.gameover);
                        kc = c;
                        kr = r;
                    }
                    if invaders.shrink_bounds() {
                        self.gameover = true;
                        self.invaders = None;
                    } else {
                        proof {
                            lemma_kill_keeps_fleet(inv0, *invaders, r as int, c as int, w0.gameover);
                        }
                    }
                    proof {
                        assert(killed(inv0, self.invaders, r as int, c as int));
                    }
                }
            }
            let ghost w_mid = *self;
            if self.bullet.is_some() {
                self.collision.bullet_to_shield(&mut self.bullet, self.shields.as_slice());
            }
            proof {
                let r1 = crate::collision::sprite_ref_rect(b1.pos, b1.sprite);
                if hit is Some {
                    assert(self.collision.bullet_set().contains(BulletDetail::Invader(kc, kr)));
                    assert(killed(w0.invaders->Some_0, self.invaders, kr as int, kc as int));
                    assert(bullet_hit_invader(&w0, &*self, hit, dt));
                } else {
                    assert(w_mid.bullet == Some(b1));
                    assert(w_mid.invaders == w0.invaders);
                    if w0.invaders is Some {
                        let inv0 = w0.invaders->Some_0;
                        assert forall|d: BulletDetail|
                            #[trigger] w_mid.collision.bullet_set().contains(d) <==> crate::collision::bullet_candidates(
                                w0.collision.bullet_set(),
                                &inv0,
                                r1,
                                d,
                            ) by {}
                    } else {
                        assert(w_mid.collision == w0.collision);
                    }
                    assert(bullet_missed_fleet(&w0, &*self, hit, dt));
                }
            }
            hit
        } else {
            self.bullet = None;
            None
        }
    }
}

/// The grid of `inv` once the cell at row `r` and column `c` is emptied.
pub open spec fn grid_without(inv: Invaders, r: int, c: int) -> Seq<Seq<Option<Invader>>> {
    Seq::new(inv.grid@.len(), |i: int| crate::collision::row_without(inv.grid@, r, c, i))
}

/// Some cell of the grid holds an invader.
pub open spec fn any_left(grid: Seq<Seq<Option<Invader>>>) -> bool {
    exists|rr: int, cc: int| 0 <= rr < grid.len() && 0 <= cc < grid[rr].len() && #[trigger] grid[rr][cc] is Some
}

/// The fleet `inv0` after the invader at row `r` and column `c` is killed: its cell is empty and
/// the bounds shrink around the invaders left, or, when none is left, the fleet is gone.
pub open spec fn killed(inv0: Invaders, inv1: Option<Invaders>, r: int, c: int) -> bool {
    let grid = grid_without(inv0, r, c);
    let inv = inv1->Some_0;
    &&& (inv1 is None) == !any_left(grid)
    &&& inv1 is Some ==> {
        &&& inv.grid@.len() == grid.len()
        &&& forall|i: int| 0 <= i < grid.len() ==> #[trigger] inv.grid@[i]@ == grid[i]
        &&& inv.stepper == inv0.stepper
        &&& inv.direction == inv0.direction
        &&& inv.descend == inv0.descend
        &&& crate::invaders::tight_bounds(inv.grid@, inv.bounds)
        &&& inv.bounds.pos.x == inv0.bounds.pos.x + (inv.bounds.left_col - inv0.bounds.left_col) * GRID_X
        &&& inv.bounds.pos.y == inv0.bounds.pos.y + (inv.bounds.top_row - inv0.bounds.top_row) * GRID_Y
    }
}

/// The player's frame clock keeps what is left over of a frame: while the game goes on, a step of
/// `dt` counts the whole frames in the time left over plus the fractional second of `dt`, the
/// player moves by that many pixels or stays, and the rest stays on its clock.
pub proof fn lemma_player_keeps_leftover_time(w0: &World, w1: &World, controls: Controls, dt: u128)
    requires
        player_stepped(w0, w1, controls, dt),
        !w0.gameover,
        w0.player is Some,
    ensures
        ({
            let p0 = w0.player->Some_0;
            let p1 = w1.player->Some_0;
            let n = p0.dt + dt % 1_000_000_000;
            &&& w1.player is Some
            &&& p1.dt == n % 16_666_667
            &&& p1.pos.y == p0.pos.y
            &&& p1.pos.x == p0.pos.x || p1.pos.x == p0.pos.x + n / 16_666_667 || p1.pos.x
                == p0.pos.x - n / 16_666_667
        }),
{
}

/// Two steps of the player moving right, of `a` and then `b` nanoseconds, take it as far as one
/// step of the fractional seconds of both together would, and leave the same time on its clock.
pub proof fn lemma_player_two_steps(
    w0: &World,
    w1: &World,
    w2: &World,
    controls: Controls,
    a: u128,
    b: u128,
)
    requires
        player_stepped(w0, w1, controls, a),
        player_stepped(w1, w2, controls, b),
        !w0.gameover,
        w0.player is Some,
        controls.direction == Direction::Right,
        w0.player->Some_0.pos.x < SCREEN_WIDTH - w0.player->Some_0.sprite.width * 2,
        w1.player->Some_0.pos.x < SCREEN_WIDTH - w1.player->Some_0.sprite.width * 2,
    ensures
        ({
            let p0 = w0.player->Some_0;
            let p2 = w2.player->Some_0;
            let n = p0.dt + a % 1_000_000_000 + b % 1_000_000_000;
            &&& w2.player is Some
            &&& p2.pos.x == p0.pos.x + n / 16_666_667
            &&& p2.dt == n % 16_666_667
        }),
{
    lemma_frames_in_two(
        w0.player->Some_0.dt as int,
        (a % 1_000_000_000) as int,
        (b % 1_000_000_000) as int,
    );
}

/// The bullet's frame clock keeps what is left over of a frame: a bullet that flies on, or that
/// hits an invader, rises four pixels for each whole frame in the time left over plus the
/// fractional second of `dt`, and keeps the rest on its clock.
pub proof fn lemma_bullet_keeps_leftover_time(
    w0: &World,
    w1: &World,
    hit: Option<(Bullet, Invader)>,
    dt: u128,
)
    requires
        bullet_stepped(w0, w1, hit, dt),
        w0.bullet is Some,
    ensures
        ({
            let b0 = w0.bullet->Some_0;
            let n = b0.dt + dt % 1_000_000_000;
            &&& w1.bullet matches Some(b1) ==> b1.dt == n % 16_666_667 && b1.pos.y == b0.pos.y - 4
                * (n / 16_666_667) && b1.pos.x == b0.pos.x
            &&& hit matches Some(h) ==> h.0.dt == n % 16_666_667 && h.0.pos.y == b0.pos.y - 4 * (n
                / 16_666_667) && h.0.pos.x == b0.pos.x
        }),
{
}

/// A bullet that flies on through two steps, of `a` and then `b` nanoseconds, rises as far as in
/// one step of the fractional seconds of both together, and keeps the same time on its clock.
pub proof fn lemma_bullet_two_steps(
    w0: &World,
    w1: &World,
    w2: &World,
    h1: Option<(Bullet, Invader)>,
    h2: Option<(Bullet, Invader)>,
    a: u128,
    b: u128,
)
    requires
        bullet_stepped(w0, w1, h1, a),
        bullet_stepped(w1, w2, h2, b),
        w0.bullet is Some,
        w2.bullet is Some,
    ensures
        ({
            let b0 = w0.bullet->Some_0;
            let b2 = w2.bullet->Some_0;
            let n = b0.dt + a % 1_000_000_000 + b % 1_000_000_000;
            &&& b2.pos.y == b0.pos.y - 4 * (n / 16_666_667)
            &&& b2.pos.x == b0.pos.x
            &&& b2.dt == n % 16_666_667
        }),
{
    assert(w1.bullet is Some);
    lemma_bullet_keeps_leftover_time(w0, w1, h1, a);
    lemma_bullet_keeps_leftover_time(w1, w2, h2, b);
    lemma_frames_in_two(
        w0.bullet->Some_0.dt as int,
        (a % 1_000_000_000) as int,
        (b % 1_000_000_000) as int,
    );
}

} // verus!
