use pixels::geo::Point;
use pixels::loader::Assets;
use pixels::sprites::{blit, Drawable, Frame, Sprite, SpriteRef, SCREEN_HEIGHT, SCREEN_WIDTH};
use std::collections::HashMap;
use std::rc::Rc;
use std::time::Duration;

fn test_assets() -> Assets {
    let mut sprites = HashMap::new();
    let sizes = [(10, 8), (10, 8), (12, 8), (12, 8), (14, 8), (14, 8), (15, 8), (15, 8), (22, 16), (1, 4), (3, 7)];
    for (k, (w, h)) in sizes.iter().enumerate() {
        sprites.insert(k, (*w, *h, Rc::new(vec![k as u8 + 1; w * h * 4])));
    }
    Assets { sprites }
}

#[test]
fn sprite_new_copies_the_asset() {
    let assets = test_assets();
    let s = Sprite::new(&assets, Frame::Shield1);
    assert_eq!(s.width(), 22);
    assert_eq!(s.height(), 16);
    assert_eq!(s.pixels().len(), 22 * 16 * 4);
    assert!(s.pixels().iter().all(|&b| b == 9));
}

#[test]
fn sprite_ref_new_reads_the_period() {
    let assets = test_assets();
    let s = SpriteRef::new(&assets, Frame::Player1, Duration::from_millis(100));
    assert_eq!(s.duration, 100_000_000);
    assert_eq!(s.dt, 0);
    assert_eq!(s.frame, Frame::Player1);
    assert_eq!(s.width(), 15);
    assert_eq!(s.pixels()[0], 7);
}

#[test]
fn step_frame_alternates() {
    let assets = test_assets();
    let mut s = SpriteRef::new(&assets, Frame::Blipjoy1, Duration::default());
    s.step_frame(&assets);
    assert_eq!(s.frame, Frame::Blipjoy2);
    assert_eq!(s.pixels()[0], 2);
    s.step_frame(&assets);
    assert_eq!(s.frame, Frame::Blipjoy1);
    assert_eq!(s.pixels()[0], 1);
    let mut shield = SpriteRef::new(&assets, Frame::Shield1, Duration::default());
    shield.step_frame(&assets);
    assert_eq!(shield.frame, Frame::Shield1);
}

#[test]
fn animate_steps_once_per_period() {
    let assets = test_assets();
    let mut s = SpriteRef::new(&assets, Frame::Player1, Duration::from_millis(100));
    s.animate(&assets, Duration::from_millis(250));
    // Two whole periods pass: back to the first frame, 50 ms left over.
    assert_eq!(s.frame, Frame::Player1);
    assert_eq!(s.dt, 50_000_000);
    s.animate(&assets, Duration::from_millis(60));
    assert_eq!(s.frame, Frame::Player2);
    assert_eq!(s.dt, 10_000_000);
}

#[test]
fn animate_without_fraction_steps_every_call() {
    let assets = test_assets();
    let mut s = SpriteRef::new(&assets, Frame::Ferris1, Duration::default());
    s.animate_nanos(&assets, 5);
    assert_eq!(s.frame, Frame::Ferris2);
    s.animate_nanos(&assets, 0);
    assert_eq!(s.frame, Frame::Ferris1);
    assert_eq!(s.dt, 0);
}

#[test]
fn share_keeps_everything() {
    let assets = test_assets();
    let s = SpriteRef::new(&assets, Frame::Laser1, Duration::from_millis(16));
    let t = s.share();
    assert_eq!(t.frame, s.frame);
    assert_eq!(t.width, s.width);
    assert_eq!(t.duration, 16_000_000);
    assert!(Rc::ptr_eq(&t.pixels, &s.pixels));
}

#[test]
fn blit_copies_rows() {
    let sprite = Sprite { width: 2, height: 2, pixels: (1..=16).collect() };
    let mut screen = vec![0u8; SCREEN_WIDTH * SCREEN_HEIGHT * 4];
    blit(&mut screen, &Point::new(3, 5), &sprite);
    let row0 = 3 * 4 + 5 * SCREEN_WIDTH * 4;
    let row1 = row0 + SCREEN_WIDTH * 4;
    assert_eq!(&screen[row0..row0 + 8], &[1, 2, 3, 4, 5, 6, 7, 8]);
    assert_eq!(&screen[row1..row1 + 8], &[9, 10, 11, 12, 13, 14, 15, 16]);
    assert_eq!(screen.iter().filter(|&&b| b != 0).count(), 16);
}

#[test]
fn blit_of_empty_sprite_changes_nothing() {
    let sprite = Sprite { width: 0, height: 0, pixels: vec![] };
    let mut screen = vec![7u8; 64];
    blit(&mut screen, &Point::new(0, 0), &sprite);
    assert!(screen.iter().all(|&b| b == 7));
}

#[test]
fn animating_in_two_steps_is_animating_at_once() {
    let assets = test_assets();
    let mut split = SpriteRef::new(&assets, Frame::Player1, Duration::from_millis(100));
    let mut whole = SpriteRef::new(&assets, Frame::Player1, Duration::from_millis(100));
    split.animate_nanos(&assets, 130_000_000);
    split.animate_nanos(&assets, 95_000_000);
    whole.animate_nanos(&assets, 225_000_000);
    assert_eq!(split.frame, whole.frame);
    assert_eq!(split.dt, whole.dt);
    assert_eq!(split.dt, 25_000_000);
    assert_eq!(split.frame, Frame::Player1);
}
