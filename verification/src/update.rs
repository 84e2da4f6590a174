//! A whole update of the game world: its phases in order, and the checks that keep them from
//! wrapping around.

use crate::controls::{Controls, Direction};
use crate::geo::{Point, Rect};
use crate::invaders::{elapsed_frames, Bullet, Invader, Laser, Player, Shield, FRAME_NANOS};
use crate::loader::Assets;
use crate::lasers::{laser_pass, lasers_stepped, pass_start, LaserPass};
use crate::sprites::{Drawable, SCREEN_WIDTH};
use crate::timing::{
    duration_as_nanos, duration_nanos, lemma_max_duration_nanos, max_duration_nanos, MAX_DURATION_NANOS,
    NANOS_PER_SEC,
};
use crate::world::{
    begun, bullet_step_ok, bullet_stepped, bullet_velocity, fleet_chain, fleet_ran, frame_stepped, player_move_ok,
    player_stepped, subsec, World, fleet_step_limit, max_fleet_steps, ONE_FRAME,
};
use std::time::Duration;
use vstd::prelude::*;

verus! {

/// What an update destroyed, for the explosions that show it: the bullet with the invader it
/// killed, and the laser with the player it killed.
#[derive(Debug)]
pub struct Casualties {
    pub invader: Option<(Bullet, Invader)>,
    pub player: Option<(Laser, Player)>,
}

/// Why an update stopped: its arithmetic would overflow.
#[derive(Clone, Copy, Debug, PartialEq, Eq, Structural)]
pub enum UpdateError {
    /// The world's clock would pass the largest `Duration`.
    ClockOverflow,
    /// The fleet would owe more steps than one update can take (`max_fleet_steps`): steps
    /// enough to carry it past the largest position that `usize` holds.
    FleetOverflow,
    /// Moving the player would take its position below zero, or the player is wider than half
    /// the screen.
    PlayerWrap,
    /// The flown bullet overlaps the fleet's box but lies left of or above its corner.
    BulletWrap,
}

/// The clock of `w` plus `dt` nanoseconds stays within a `Duration`.
pub open spec fn clock_fits(w: &World, dt: u128) -> bool {
    w.dt + dt <= max_duration_nanos()
}

/// The fleet of `w` would owe more steps after `dt` more nanoseconds than one update can take.
pub open spec fn fleet_overflows(w: &World, dt: u128) -> bool {
    !w.gameover && w.invaders is Some && (w.dt + dt) / (ONE_FRAME as int) > max_fleet_steps()
}

/// `r` is the outcome, and `w1` the world, of an update of `w0` by `dt` nanoseconds with the
/// controls.
///
/// The update starts (see `begun`), runs the fleet (`fleet_ran`), moves the player
/// (`player_stepped`), flies the bullet (`bullet_stepped`) and the lasers (`lasers_stepped`). It
/// stops before a phase whose arithmetic would overflow, with the matching error.
pub open spec fn updated(
    w0: &World,
    w1: &World,
    dt: u128,
    controls: Controls,
    r: Result<Casualties, UpdateError>,
) -> bool {
    &&& (r matches Err(UpdateError::ClockOverflow)) <==> !clock_fits(w0, dt)
    &&& (r matches Err(UpdateError::FleetOverflow)) <==> clock_fits(w0, dt) && fleet_overflows(w0, dt)
    &&& (r matches Err(UpdateError::ClockOverflow)) || (r matches Err(UpdateError::FleetOverflow))
        ==> *w1 == *w0
    &&& r matches Err(UpdateError::PlayerWrap) ==> exists|a: World|
        begun(w0, &a, dt) && fleet_ran(&a, w1) && !player_move_ok(w1, controls, dt)
    &&& r matches Err(UpdateError::BulletWrap) ==> exists|a: World, b: World|
        {
            &&& begun(w0, &a, dt)
            &&& fleet_ran(&a, &b)
            &&& player_move_ok(&b, controls, dt)
            &&& player_stepped(&b, w1, controls, dt)
            &&& !bullet_step_ok(w1, dt)
        }
    &&& r matches Ok(c) ==> exists|a: World, b: World, d: World, e: World|
        {
            &&& begun(w0, &a, dt)
            &&& fleet_ran(&a, &b)
            &&& player_move_ok(&b, controls, dt)
            &&& player_stepped(&b, &d, controls, dt)
            &&& bullet_step_ok(&d, dt)
            &&& bullet_stepped(&d, &e, c.invader, dt)
            &&& lasers_stepped(&e, w1, c.player, dt)
        }
}

impl World {
    /// Whether the player can take its turn of `dt` nanoseconds with the controls without
    /// wrapping around.
    pub fn can_step_player(&self, controls: &Controls, dt: u128) -> (ok: bool)
        requires
            self.wf(),
        ensures
            ok == player_move_ok(self, *controls, dt),
    {
        if self.gameover || self.player.is_none() {
            return true;
        }
        let p = self.player.as_ref().unwrap();
        let width = p.sprite.width();
        match controls.direction {
            Direction::Left => {
                if p.pos.x > width {
                    let frames = (p.dt + (dt % NANOS_PER_SEC) as usize) / FRAME_NANOS;
                    frames <= p.pos.x
                } else {
                    true
                }
            },
            Direction::Right => width * 2 <= SCREEN_WIDTH,
            Direction::Still => true,
        }
    }

    /// Whether the bullet can fly for `dt` nanoseconds without wrapping around in the fleet's
    /// collision grid.
    pub fn can_step_bullet(&self, dt: u128) -> (ok: bool)
        requires
            self.wf(),
        ensures
            ok == bullet_step_ok(self, dt),
    {
        if self.bullet.is_none() || self.invaders.is_none() {
            return true;
        }
        let b = self.bullet.as_ref().unwrap();
        let invaders = self.invaders.as_ref().unwrap();
        let frames = (b.dt + (dt % NANOS_PER_SEC) as usize) / FRAME_NANOS;
        proof {
            crate::world::lemma_frames_per_update(b.dt, subsec(dt));
        }
        let velocity = frames * 4;
        if b.pos.y <= velocity {
            return true;
        }
        let pos = Point::new(b.pos.x, b.pos.y - velocity);
        let bullet_rect = Rect::from_drawable(pos, &b.sprite);
        let (top, right, bottom, left) = invaders.get_bounds();
        let fleet_rect = Rect::new(Point::new(left, top), Point::new(right, bottom));
        if bullet_rect.intersects(fleet_rect) {
            pos.x >= left && pos.y >= top
        } else {
            true
        }
    }

    /// Update the world by `dt` nanoseconds with the controls (see `updated`).
    pub fn update_nanos(&mut self, dt: u128, controls: &Controls) -> (r: Result<Casualties, UpdateError>)
        requires
            old(self).wf(),
            dt <= max_duration_nanos(),
        ensures
            final(self).wf(),
            updated(&*old(self), &*final(self), dt, *controls, r),
    {
        proof {
            lemma_max_duration_nanos();
        }
        if dt > MAX_DURATION_NANOS - self.dt {
            return Err(UpdateError::ClockOverflow);
        }
        if !self.gameover && self.invaders.is_some() && (self.dt + dt) / ONE_FRAME > fleet_step_limit() {
            return Err(UpdateError::FleetOverflow);
        }
        let ghost w0 = *self;
        self.begin_update(dt);
        let ghost a = *self;
        self.step_fleet();
        if !self.can_step_player(controls, dt) {
            return Err(UpdateError::PlayerWrap);
        }
        let ghost b = *self;
        self.step_player(controls, dt);
        if !self.can_step_bullet(dt) {
            return Err(UpdateError::BulletWrap);
        }
        let ghost d = *self;
        proof {
            if d.invaders is Some {
                assert(d.collision.bullet_set().is_empty());
            }
        }
        let invader = self.step_bullet(dt);
        let ghost e = *self;
        let player = self.step_lasers(dt);
        Ok(Casualties { invader, player })
    }

    /// Update the internal state.
    ///
    /// `dt` is the time since the last update, read in whole nanoseconds; the result is that of
    /// `update_nanos` for that number.
    pub fn update(&mut self, dt: &Duration, controls: &Controls) -> (r: Result<Casualties, UpdateError>)
        requires
            old(self).wf(),
        ensures
            final(self).wf(),
            updated(&*old(self), &*final(self), duration_nanos(*dt), *controls, r),
    {
        let n = duration_as_nanos(dt);
        self.update_nanos(n, controls)
    }
}

/// Along a chain of fleet frames, the score stays and an ended game stays over.
proof fn lemma_chain_keeps(ws: Seq<World>, rs: Seq<u32>, k: int)
    requires
        k >= 0,
        fleet_chain(ws, rs, k),
    ensures
        ws[k].score == ws[0].score,
        ws[0].gameover ==> ws[k].gameover,
        ws[0].player is None ==> ws[k].player is None,
    decreases k,
{
    if k > 0 {
        let ws1 = ws.take(k);
        let rs1 = rs.take(k - 1);
        assert forall|j: int| 0 <= j < k - 1 implies frame_stepped(#[trigger] ws1[j], ws1[j + 1], rs1[j]) by {
            assert(frame_stepped(ws[j], ws[j + 1], rs[j]));
        }
        lemma_chain_keeps(ws1, rs1, k - 1);
        assert(frame_stepped(ws[k - 1], ws[k], rs[k - 1]));
    }
}

/// The lasers' pass can end the game but never undoes its end.
proof fn lemma_pass_keeps_gameover(
    assets: &Assets,
    shields: Seq<Shield>,
    lasers: Seq<Laser>,
    dt: u128,
    start: LaserPass,
)
    ensures
        start.2 ==> laser_pass(assets, shields, lasers, dt, start).2,
        start.0 is None ==> laser_pass(assets, shields, lasers, dt, start).0 is None,
    decreases lasers.len(),
{
    if lasers.len() > 0 {
        lemma_pass_keeps_gameover(assets, shields, lasers.drop_last(), dt, start);
    }
}

/// No update brings back a dead player or a destroyed fleet, whatever the time, the controls and
/// the random numbers.
pub proof fn lemma_update_never_revives(
    w0: &World,
    w1: &World,
    dt: u128,
    controls: Controls,
    r: Result<Casualties, UpdateError>,
)
    requires
        updated(w0, w1, dt, controls, r),
    ensures
        w0.player is None ==> w1.player is None,
        w0.invaders is None ==> w1.invaders is None,
{
    match r {
        Err(UpdateError::ClockOverflow) => {},
        Err(UpdateError::FleetOverflow) => {},
        Err(UpdateError::PlayerWrap) => {
            let a = choose|a: World| begun(w0, &a, dt) && fleet_ran(&a, w1) && !player_move_ok(w1, controls, dt);
            lemma_fleet_ran_keeps(&a, w1);
        },
        Err(UpdateError::BulletWrap) => {
            let (a, b) = choose|a: World, b: World|
                {
                    &&& begun(w0, &a, dt)
                    &&& fleet_ran(&a, &b)
                    &&& player_move_ok(&b, controls, dt)
                    &&& player_stepped(&b, w1, controls, dt)
                    &&& !bullet_step_ok(w1, dt)
                };
            lemma_fleet_ran_keeps(&a, &b);
        },
        Ok(c) => {
            let (a, b, d, e) = choose|a: World, b: World, d: World, e: World|
                {
                    &&& begun(w0, &a, dt)
                    &&& fleet_ran(&a, &b)
                    &&& player_move_ok(&b, controls, dt)
                    &&& player_stepped(&b, &d, controls, dt)
                    &&& bullet_step_ok(&d, dt)
                    &&& bullet_stepped(&d, &e, c.invader, dt)
                    &&& lasers_stepped(&e, w1, c.player, dt)
                };
            lemma_fleet_ran_keeps(&a, &b);
            lemma_pass_keeps_gameover(&e.assets, e.shields@, e.lasers@, dt, pass_start(&e));
        },
    }
}

/// An update that gets past its overflow checks spends each whole frame of the accumulated time
/// on one fleet step while the game goes on with a fleet, and keeps only the remainder; otherwise
/// the clock keeps the whole time.
pub proof fn lemma_update_clock(
    w0: &World,
    w1: &World,
    dt: u128,
    controls: Controls,
    r: Result<Casualties, UpdateError>,
)
    requires
        updated(w0, w1, dt, controls, r),
        !(r matches Err(UpdateError::ClockOverflow)),
        !(r matches Err(UpdateError::FleetOverflow)),
    ensures
        w1.dt == if !w0.gameover && w0.invaders is Some {
            (w0.dt + dt) % (ONE_FRAME as int)
        } else {
            w0.dt + dt
        },
{
    match r {
        Err(UpdateError::PlayerWrap) => {
            let a = choose|a: World| begun(w0, &a, dt) && fleet_ran(&a, w1) && !player_move_ok(w1, controls, dt);
        },
        Err(UpdateError::BulletWrap) => {
            let (a, b) = choose|a: World, b: World|
                {
                    &&& begun(w0, &a, dt)
                    &&& fleet_ran(&a, &b)
                    &&& player_move_ok(&b, controls, dt)
                    &&& player_stepped(&b, w1, controls, dt)
                    &&& !bullet_step_ok(w1, dt)
                };
        },
        Ok(c) => {
            let (a, b, d, e) = choose|a: World, b: World, d: World, e: World|
                {
                    &&& begun(w0, &a, dt)
                    &&& fleet_ran(&a, &b)
                    &&& player_move_ok(&b, controls, dt)
                    &&& player_stepped(&b, &d, controls, dt)
                    &&& bullet_step_ok(&d, dt)
                    &&& bullet_stepped(&d, &e, c.invader, dt)
                    &&& lasers_stepped(&e, w1, c.player, dt)
                };
        },
        _ => {},
    }
}

/// Once the game is over it stays over, and no update changes the score, whatever the time, the
/// controls and the random numbers.
pub proof fn lemma_update_keeps_end_and_score(
    w0: &World,
    w1: &World,
    dt: u128,
    controls: Controls,
    r: Result<Casualties, UpdateError>,
)
    requires
        updated(w0, w1, dt, controls, r),
    ensures
        w0.gameover ==> w1.gameover,
        w1.score == w0.score,
{
    match r {
        Err(UpdateError::ClockOverflow) => {},
        Err(UpdateError::FleetOverflow) => {},
        Err(UpdateError::PlayerWrap) => {
            let a = choose|a: World| begun(w0, &a, dt) && fleet_ran(&a, w1) && !player_move_ok(w1, controls, dt);
            lemma_fleet_ran_keeps(&a, w1);
        },
        Err(UpdateError::BulletWrap) => {
            let (a, b) = choose|a: World, b: World|
                {
                    &&& begun(w0, &a, dt)
                    &&& fleet_ran(&a, &b)
                    &&& player_move_ok(&b, controls, dt)
                    &&& player_stepped(&b, w1, controls, dt)
                    &&& !bullet_step_ok(w1, dt)
                };
            lemma_fleet_ran_keeps(&a, &b);
        },
        Ok(c) => {
            let (a, b, d, e) = choose|a: World, b: World, d: World, e: World|
                {
                    &&& begun(w0, &a, dt)
                    &&& fleet_ran(&a, &b)
                    &&& player_move_ok(&b, controls, dt)
                    &&& player_stepped(&b, &d, controls, dt)
                    &&& bullet_step_ok(&d, dt)
                    &&& bullet_stepped(&d, &e, c.invader, dt)
                    &&& lasers_stepped(&e, w1, c.player, dt)
                };
            lemma_fleet_ran_keeps(&a, &b);
            lemma_pass_keeps_gameover(&e.assets, e.shields@, e.lasers@, dt, pass_start(&e));
        },
    }
}

/// The fleet's phase keeps the score, an ended game stays over, and a dead player or a destroyed
/// fleet stays so.
proof fn lemma_fleet_ran_keeps(a: &World, b: &World)
    requires
        fleet_ran(a, b),
    ensures
        b.score == a.score,
        a.gameover ==> b.gameover,
        a.player is None ==> b.player is None,
        a.invaders is None ==> b.invaders is None,
{
    if !(a.gameover || a.invaders is None) {
        let (ws, rs) = choose|ws: Seq<World>, rs: Seq<u32>|
            #[trigger] fleet_chain(ws, rs, (a.dt / ONE_FRAME) as int) && ws[0] == *a && ws.last() == *b;
        lemma_chain_keeps(ws, rs, (a.dt / ONE_FRAME) as int);
    }
}

} // verus!
