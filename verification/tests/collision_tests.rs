use pixels::collision::{create_shield_rects, BulletDetail, Collision, LaserDetail};
use pixels::controls::Direction;
use pixels::geo::{Point, Rect};
use pixels::invaders::{make_invader_grid, Bounds, Bullet, Invaders, Laser, Player, Shield, COLS};
use pixels::loader::Assets;
use pixels::sprites::{Frame, Sprite, SpriteRef};
use std::collections::HashMap;
use std::rc::Rc;
use std::time::Duration;

fn collision_assets() -> Assets {
    let mut sprites = HashMap::new();
    let sizes = [(10, 8), (10, 8), (12, 8), (12, 8), (14, 8), (14, 8), (15, 8), (15, 8), (22, 16), (1, 4), (3, 7)];
    for (k, (w, h)) in sizes.iter().enumerate() {
        sprites.insert(k, (*w, *h, Rc::new(vec![k as u8 + 1; w * h * 4])));
    }
    Assets { sprites }
}

fn shields(assets: &Assets) -> Vec<Shield> {
    (0..4).map(|i| Shield { sprite: Sprite::new(assets, Frame::Shield1), pos: Point::new(i * 45 + 32, 192) }).collect()
}

fn bullet_at(assets: &Assets, x: usize, y: usize) -> Bullet {
    Bullet { sprite: SpriteRef::new(assets, Frame::Bullet1, Duration::from_millis(32)), pos: Point::new(x, y), dt: 0 }
}

fn laser_at(assets: &Assets, x: usize, y: usize) -> Laser {
    Laser { sprite: SpriteRef::new(assets, Frame::Laser1, Duration::from_millis(16)), pos: Point::new(x, y), dt: 0 }
}

#[test]
fn shield_rects_follow_the_shields() {
    let assets = collision_assets();
    let s = shields(&assets);
    let rects = create_shield_rects(&s);
    assert_eq!(rects[0], Rect::new(Point::new(32, 192), Point::new(54, 208)));
    assert_eq!(rects[3], Rect::new(Point::new(167, 192), Point::new(189, 208)));
}

#[test]
fn bullet_hits_a_shield() {
    let assets = collision_assets();
    let s = shields(&assets);
    let mut c = Collision::default();
    let mut bullet = Some(bullet_at(&assets, 80, 200));
    c.bullet_to_shield(&mut bullet, &s);
    assert!(bullet.is_none());
    assert_eq!(c.bullet_details, vec![BulletDetail::Shield(1)]);
}

#[test]
fn bullet_between_shields_flies_on() {
    let assets = collision_assets();
    let s = shields(&assets);
    let mut c = Collision::default();
    let mut bullet = Some(bullet_at(&assets, 60, 200));
    c.bullet_to_shield(&mut bullet, &s);
    assert!(bullet.is_some());
    assert!(c.bullet_details.is_empty());
}

#[test]
fn laser_and_bullet_obliterate_each_other() {
    let assets = collision_assets();
    let mut c = Collision::default();
    let mut bullet = Some(bullet_at(&assets, 101, 100));
    assert!(c.laser_to_bullet(&laser_at(&assets, 100, 98), &mut bullet));
    assert!(bullet.is_none());
    assert_eq!(c.bullet_details, vec![BulletDetail::Laser]);
    // With no bullet, nothing happens.
    assert!(!c.laser_to_bullet(&laser_at(&assets, 100, 98), &mut bullet));
}

#[test]
fn laser_misses_the_bullet() {
    let assets = collision_assets();
    let mut c = Collision::default();
    let mut bullet = Some(bullet_at(&assets, 120, 100));
    assert!(!c.laser_to_bullet(&laser_at(&assets, 100, 98), &mut bullet));
    assert!(bullet.is_some());
}

#[test]
fn laser_hits_shields_and_records_each() {
    let assets = collision_assets();
    let s = shields(&assets);
    let mut c = Collision::default();
    assert!(c.laser_to_shield(&laser_at(&assets, 33, 190), &s));
    assert_eq!(c.laser_details, vec![LaserDetail::Shield(0)]);
    assert!(!c.laser_to_shield(&laser_at(&assets, 10, 190), &s));
    // Recorded once however often it happens.
    assert!(c.laser_to_shield(&laser_at(&assets, 33, 190), &s));
    assert_eq!(c.laser_details, vec![LaserDetail::Shield(0)]);
}

#[test]
fn laser_hits_the_player() {
    let assets = collision_assets();
    let mut c = Collision::default();
    let player = Player { sprite: SpriteRef::new(&assets, Frame::Player1, Duration::from_millis(100)), pos: Point::new(80, 216), dt: 0 };
    assert!(c.laser_to_player(&laser_at(&assets, 85, 212), &player));
    assert_eq!(c.laser_details, vec![LaserDetail::Player]);
    assert!(!c.laser_to_player(&laser_at(&assets, 60, 212), &player));
}

#[test]
fn clear_forgets_the_details() {
    let assets = collision_assets();
    let mut c = Collision::default();
    c.pixel_mask = vec![1, 2, 3];
    let mut bullet = Some(bullet_at(&assets, 101, 100));
    c.laser_to_bullet(&laser_at(&assets, 100, 98), &mut bullet);
    c.clear();
    assert!(c.bullet_details.is_empty());
    assert!(c.laser_details.is_empty());
    assert_eq!(c.pixel_mask, vec![1, 2, 3]);
}

#[test]
fn bullet_kills_the_invader_it_overlaps() {
    let assets = collision_assets();
    let mut invaders = Invaders {
        grid: make_invader_grid(&assets),
        stepper: Point::new(COLS - 1, 0),
        direction: Direction::Right,
        descend: false,
        bounds: Bounds::default(),
    };
    // Invader (row 4, col 2) is at (24 + 1 + 32, 64 + 3 + 64) = (57, 131), 14 by 8.
    let mut bullet = Some(bullet_at(&assets, 60, 133));
    let mut c = Collision::default();
    let (b, dead) = c.bullet_to_invader(&mut bullet, &mut invaders).expect("a hit");
    assert_eq!(b.pos, Point::new(60, 133));
    assert_eq!(dead.pos, Point::new(57, 131));
    assert!(bullet.is_none());
    assert!(invaders.grid[4][2].is_none());
    assert!(c.bullet_details.contains(&BulletDetail::Invader(2, 4)));
}

#[test]
fn bullet_outside_the_fleet_hits_nothing() {
    let assets = collision_assets();
    let mut invaders = Invaders {
        grid: make_invader_grid(&assets),
        stepper: Point::new(COLS - 1, 0),
        direction: Direction::Right,
        descend: false,
        bounds: Bounds::default(),
    };
    let mut bullet = Some(bullet_at(&assets, 100, 180));
    let mut c = Collision::default();
    assert!(c.bullet_to_invader(&mut bullet, &mut invaders).is_none());
    assert!(bullet.is_some());
    assert!(c.bullet_details.is_empty());
}
