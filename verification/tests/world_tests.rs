use pixels::controls::{Controls, Direction};
use pixels::geo::Point;
use pixels::invaders::{Bullet, Laser, COLS, FRAME_NANOS, ROWS};
use pixels::loader::Assets;
use pixels::sprites::{Frame, SpriteRef, SCREEN_HEIGHT, SCREEN_WIDTH};
use pixels::timing::MAX_DURATION_NANOS;
use pixels::update::UpdateError;
use pixels::world::{fleet_step_limit, World, ONE_FRAME};
use std::collections::HashMap;
use std::rc::Rc;
use std::time::Duration;

fn world_assets() -> Assets {
    let mut sprites = HashMap::new();
    let sizes = [(10, 8), (10, 8), (12, 8), (12, 8), (14, 8), (14, 8), (15, 8), (15, 8), (22, 16), (1, 4), (3, 7)];
    for (k, (w, h)) in sizes.iter().enumerate() {
        sprites.insert(k, (*w, *h, Rc::new(vec![k as u8 + 1; w * h * 4])));
    }
    Assets { sprites }
}

fn new_world() -> World {
    World::new(world_assets(), false)
}

fn still() -> Controls {
    Controls { direction: Direction::Still, fire: false }
}

fn laser(w: &World, x: usize, y: usize) -> Laser {
    Laser { sprite: SpriteRef::new(&w.assets, Frame::Laser1, Duration::from_millis(16)), pos: Point::new(x, y), dt: 0 }
}

fn bullet(w: &World, x: usize, y: usize) -> Bullet {
    Bullet { sprite: SpriteRef::new(&w.assets, Frame::Bullet1, Duration::from_millis(32)), pos: Point::new(x, y), dt: 0 }
}

#[test]
fn world_starts_ready() {
    let w = new_world();
    let inv = w.invaders.as_ref().unwrap();
    assert_eq!(inv.stepper, Point::new(COLS - 1, 0));
    assert_eq!(inv.direction, Direction::Right);
    assert!(inv.grid.iter().all(|row| row.iter().all(|c| c.is_some())));
    let p = w.player.as_ref().unwrap();
    assert_eq!(p.pos, Point::new(80, 216));
    assert_eq!(p.sprite.frame, Frame::Player1);
    let xs: Vec<usize> = w.shields.iter().map(|s| s.pos.x).collect();
    assert_eq!(xs, vec![32, 77, 122, 167]);
    assert!(w.shields.iter().all(|s| s.pos.y == 192));
    assert!(w.lasers.is_empty() && w.bullet.is_none());
    assert_eq!(w.score, 0);
    assert!(!w.gameover);
    assert_eq!(w.collision.pixel_mask.len(), SCREEN_WIDTH * SCREEN_HEIGHT * 4);
}

#[test]
fn fleet_leader_moves_the_bounds() {
    let mut w = new_world();
    w.step_invaders_with(1);
    let inv = w.invaders.as_ref().unwrap();
    assert_eq!(inv.stepper, Point::new(0, ROWS - 1));
    assert_eq!(inv.bounds.pos, Point::new(26, 64));
    let moved = inv.grid[4][0].as_ref().unwrap();
    assert_eq!(moved.pos, Point::new(27, 131));
    assert_eq!(moved.sprite.frame, Frame::Cthulhu2);
    assert_eq!(inv.grid[4][1].as_ref().unwrap().pos, Point::new(41, 131));
    assert!(w.lasers.is_empty());
}

#[test]
fn fleet_fires_from_the_closest_column() {
    let mut w = new_world();
    w.step_invaders_with(150);
    assert_eq!(w.lasers.len(), 1);
    // The lowest invader of column 3 is at (73, 131).
    assert_eq!(w.lasers[0].pos, Point::new(77, 141));
    assert_eq!(w.lasers[0].sprite.frame, Frame::Laser1);
    // Three lasers at most.
    w.step_invaders_with(0);
    w.step_invaders_with(50);
    w.step_invaders_with(100);
    assert_eq!(w.lasers.len(), 3);
}

#[test]
fn fleet_turns_at_the_edge() {
    let mut w = new_world();
    {
        let inv = w.invaders.as_mut().unwrap();
        for row in inv.grid.iter_mut() {
            for cell in row.iter_mut() {
                if let Some(i) = cell {
                    i.pos.x += 30;
                }
            }
        }
        inv.bounds.pos.x += 30;
    }
    w.step_invaders_with(1);
    let inv = w.invaders.as_ref().unwrap();
    assert_eq!(inv.direction, Direction::Left);
    assert!(inv.descend);
    assert_eq!(inv.bounds.pos, Point::new(52, 72));
    assert_eq!(inv.grid[4][0].as_ref().unwrap().pos, Point::new(55 - 2, 131 + 8));
}

#[test]
fn player_moves_and_fires() {
    let mut w = new_world();
    let controls = Controls { direction: Direction::Right, fire: true };
    w.step_player(&controls, (FRAME_NANOS * 3) as u128);
    let p = w.player.as_ref().unwrap();
    assert_eq!(p.pos, Point::new(83, 216));
    assert_eq!(p.dt, 0);
    let b = w.bullet.as_ref().unwrap();
    assert_eq!(b.pos, Point::new(90, 216));
    assert_eq!(b.sprite.frame, Frame::Bullet1);
    // A second shot waits for the first bullet.
    let left = Controls { direction: Direction::Left, fire: true };
    w.step_player(&left, FRAME_NANOS as u128);
    assert_eq!(w.player.as_ref().unwrap().pos, Point::new(82, 216));
    assert_eq!(w.bullet.as_ref().unwrap().pos, Point::new(90, 216));
}

#[test]
fn player_stops_at_the_left_edge() {
    let mut w = new_world();
    w.player.as_mut().unwrap().pos.x = 15;
    let left = Controls { direction: Direction::Left, fire: false };
    assert!(w.can_step_player(&left, FRAME_NANOS as u128));
    w.step_player(&left, FRAME_NANOS as u128);
    assert_eq!(w.player.as_ref().unwrap().pos.x, 15);
}

#[test]
fn player_move_that_would_wrap_is_refused() {
    let mut w = new_world();
    w.player.as_mut().unwrap().pos.x = 17;
    let left = Controls { direction: Direction::Left, fire: false };
    assert!(w.can_step_player(&left, (FRAME_NANOS * 17) as u128));
    assert!(!w.can_step_player(&left, (FRAME_NANOS * 18) as u128));
    w.player.as_mut().unwrap().sprite.width = 113;
    let right = Controls { direction: Direction::Right, fire: false };
    assert!(!w.can_step_player(&right, 1));
}

#[test]
fn bullet_leaves_the_screen() {
    let mut w = new_world();
    w.bullet = Some(bullet(&w, 100, 10));
    let hit = w.step_bullet((FRAME_NANOS * 3) as u128);
    assert!(hit.is_none());
    assert!(w.bullet.is_none());
}

#[test]
fn bullet_hits_a_shield_in_flight() {
    let mut w = new_world();
    w.bullet = Some(bullet(&w, 80, 210));
    let hit = w.step_bullet(FRAME_NANOS as u128);
    assert!(hit.is_none());
    assert!(w.bullet.is_none());
}

#[test]
fn bullet_kills_an_invader_in_flight() {
    let mut w = new_world();
    w.bullet = Some(bullet(&w, 60, 137));
    let (b, dead) = w.step_bullet(FRAME_NANOS as u128).expect("a hit");
    assert_eq!(b.pos, Point::new(60, 133));
    assert_eq!(dead.pos, Point::new(57, 131));
    assert!(w.bullet.is_none());
    assert!(w.invaders.as_ref().unwrap().grid[4][2].is_none());
    assert!(!w.gameover);
}

#[test]
fn killing_the_last_invader_ends_the_game() {
    let mut w = new_world();
    {
        let inv = w.invaders.as_mut().unwrap();
        for r in 0..ROWS {
            for c in 0..COLS {
                if (r, c) != (4, 2) {
                    inv.grid[r][c] = None;
                }
            }
        }
        assert!(!inv.shrink_bounds());
    }
    w.bullet = Some(bullet(&w, 60, 137));
    assert!(w.can_step_bullet(FRAME_NANOS as u128));
    assert!(w.step_bullet(FRAME_NANOS as u128).is_some());
    assert!(w.invaders.is_none());
    assert!(w.gameover);
}

#[test]
fn lasers_fall_and_expire() {
    let mut w = new_world();
    w.lasers.push(laser(&w, 10, 100));
    w.lasers.push(laser(&w, 10, 216));
    w.lasers.push(laser(&w, 20, 120));
    let hit = w.step_lasers((FRAME_NANOS * 2) as u128);
    assert!(hit.is_none());
    let ys: Vec<usize> = w.lasers.iter().map(|l| l.pos.y).collect();
    assert_eq!(ys, vec![104, 124]);
}

#[test]
fn laser_kills_the_player() {
    let mut w = new_world();
    w.lasers.push(laser(&w, 85, 210));
    let (l, p) = w.step_lasers(FRAME_NANOS as u128).expect("a hit");
    assert_eq!(l.pos, Point::new(85, 212));
    assert_eq!(p.pos, Point::new(80, 216));
    assert!(w.player.is_none());
    assert!(w.gameover);
    assert!(w.lasers.is_empty());
}

#[test]
fn laser_destroys_the_bullet_and_a_shield_stops_a_laser() {
    let mut w = new_world();
    w.bullet = Some(bullet(&w, 151, 100));
    w.lasers.push(laser(&w, 150, 96));
    w.lasers.push(laser(&w, 33, 186));
    w.lasers.push(laser(&w, 200, 20));
    assert!(w.step_lasers(FRAME_NANOS as u128).is_none());
    assert!(w.bullet.is_none());
    assert_eq!(w.lasers.len(), 1);
    assert_eq!(w.lasers[0].pos, Point::new(200, 22));
}

#[test]
fn update_runs_every_phase() {
    let mut w = new_world();
    let controls = Controls { direction: Direction::Right, fire: true };
    let out = w.update(&Duration::from_nanos((ONE_FRAME * 2 + 5) as u64), &controls).expect("no overflow");
    assert!(out.invader.is_none() && out.player.is_none());
    assert_eq!(w.dt, 5);
    let inv = w.invaders.as_ref().unwrap();
    assert_eq!(inv.stepper, Point::new(1, ROWS - 1));
    assert_eq!(w.player.as_ref().unwrap().pos, Point::new(82, 216));
    // The bullet was fired at (89, 216) and flew two frames up.
    assert_eq!(w.bullet.as_ref().unwrap().pos, Point::new(89, 208));
    assert_eq!(w.score, 0);
}

#[test]
fn update_refuses_a_clock_overflow() {
    let mut w = new_world();
    w.dt = MAX_DURATION_NANOS;
    assert_eq!(w.update_nanos(1, &still()).unwrap_err(), UpdateError::ClockOverflow);
    assert_eq!(w.dt, MAX_DURATION_NANOS);
}

#[test]
fn update_refuses_a_fleet_past_usize() {
    let mut w = new_world();
    let limit = fleet_step_limit();
    assert_eq!(limit, ((usize::MAX - 0x4_0000 - 8 - 216) / 8) as u128);
    let dt = ONE_FRAME * (limit + 1);
    assert_eq!(w.update_nanos(dt, &still()).unwrap_err(), UpdateError::FleetOverflow);
    assert_eq!(w.dt, 0);
}

#[test]
fn update_spends_a_long_gap_frame_by_frame() {
    let mut w = new_world();
    let dt = ONE_FRAME * 100_001 + 1;
    assert!(w.update_nanos(dt, &still()).is_ok());
    // Every whole frame went to a fleet step; only the remainder is left on the clock.
    assert_eq!(w.dt, 1);
    // The fleet reached the player's row long before: the game ended, and the player with it.
    assert!(w.gameover);
    assert!(w.player.is_none());
    assert!(w.invaders.is_some());
}

#[test]
fn update_refuses_a_wrapping_player() {
    let mut w = new_world();
    w.player.as_mut().unwrap().sprite.width = 120;
    let right = Controls { direction: Direction::Right, fire: false };
    assert_eq!(w.update_nanos(1, &right).unwrap_err(), UpdateError::PlayerWrap);
}

#[test]
fn update_refuses_a_wrapping_bullet() {
    let mut w = new_world();
    // A bullet that rises past the fleet's top-left corner while overlapping its box.
    w.bullet = Some(bullet(&w, 30, 66));
    assert!(!w.can_step_bullet(FRAME_NANOS as u128));
    assert_eq!(w.update_nanos(FRAME_NANOS as u128, &still()).unwrap_err(), UpdateError::BulletWrap);
}

#[test]
fn game_over_stays_over() {
    let mut w = new_world();
    w.lasers.push(laser(&w, 85, 210));
    w.update_nanos(FRAME_NANOS as u128, &still()).expect("no overflow");
    assert!(w.gameover);
    for _ in 0..5 {
        w.update_nanos(ONE_FRAME * 3, &Controls { direction: Direction::Left, fire: true }).expect("no overflow");
        assert!(w.gameover);
        assert_eq!(w.score, 0);
    }
}

#[test]
fn a_dead_player_stays_dead() {
    let mut w = new_world();
    w.lasers.push(laser(&w, 85, 210));
    w.update_nanos(FRAME_NANOS as u128, &still()).expect("no overflow");
    assert!(w.player.is_none());
    for _ in 0..5 {
        w.update_nanos(ONE_FRAME * 7, &Controls { direction: Direction::Right, fire: true }).expect("no overflow");
        assert!(w.player.is_none());
        assert!(w.invaders.is_some());
        assert!(w.lasers.len() <= 3);
    }
}

#[test]
fn draw_paints_the_world_and_keeps_the_mask() {
    let mut w = new_world();
    let mut screen = vec![9u8; SCREEN_WIDTH * SCREEN_HEIGHT * 4];
    assert!(w.can_draw(screen.len()));
    w.draw(&mut screen);
    assert_eq!(w.collision.pixel_mask, screen);
    // The player's first pixel holds its sprite byte; the top-left corner is cleared.
    let i = 80 * 4 + 216 * SCREEN_WIDTH * 4;
    assert_eq!(screen[i], 7);
    assert_eq!(&screen[0..4], &[0, 0, 0, 255]);
    // The lowest invader of column 0 starts at (25, 131).
    let j = 25 * 4 + 131 * SCREEN_WIDTH * 4;
    assert_eq!(screen[j], 5);
}

#[test]
fn drawing_twice_changes_nothing() {
    let mut w = new_world();
    let mut first = vec![0u8; SCREEN_WIDTH * SCREEN_HEIGHT * 4];
    w.draw(&mut first);
    let mut second = vec![1u8; SCREEN_WIDTH * SCREEN_HEIGHT * 4];
    w.draw(&mut second);
    assert_eq!(first, second);
    assert_eq!(w.collision.pixel_mask, second);
}

#[test]
fn draw_needs_a_screen_of_the_mask_size() {
    let mut w = new_world();
    assert!(!w.can_draw(100));
    w.lasers.push(laser(&w, 100, 254));
    assert!(!w.can_draw(SCREEN_WIDTH * SCREEN_HEIGHT * 4));
}

#[test]
fn assets_completeness_is_checked() {
    let mut assets = world_assets();
    assert!(assets.is_complete());
    assets.sprites.remove(&9);
    assert!(!assets.is_complete());
    let mut assets = world_assets();
    assets.sprites.insert(10, (70000, 1, Rc::new(vec![])));
    assert!(!assets.is_complete());
}
