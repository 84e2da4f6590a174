use pixels::geo::Point;
use pixels::invaders::{
    advance_frames, clear, make_invader_grid, next_invader, update_dt, Bounds, Invaders, COLS,
    FRAME_NANOS, ROWS,
};
use pixels::controls::Direction;
use pixels::loader::Assets;
use std::collections::HashMap;
use std::rc::Rc;
use std::time::Duration;

fn fleet_assets() -> Assets {
    let mut sprites = HashMap::new();
    let sizes = [(10, 8), (10, 8), (12, 8), (12, 8), (14, 8), (14, 8), (15, 8), (15, 8), (22, 16), (1, 4), (3, 7)];
    for (k, (w, h)) in sizes.iter().enumerate() {
        sprites.insert(k, (*w, *h, Rc::new(vec![k as u8 + 1; w * h * 4])));
    }
    Assets { sprites }
}

fn fleet() -> Invaders {
    Invaders {
        grid: make_invader_grid(&fleet_assets()),
        stepper: Point::new(COLS - 1, 0),
        direction: Direction::Right,
        descend: false,
        bounds: Bounds::default(),
    }
}

#[test]
fn invader_grid_layout() {
    let grid = make_invader_grid(&fleet_assets());
    assert_eq!(grid.len(), ROWS);
    assert!(grid.iter().all(|row| row.len() == COLS && row.iter().all(|c| c.is_some())));
    let blipjoy = grid[0][0].as_ref().unwrap();
    assert_eq!(blipjoy.pos, Point::new(27, 68));
    assert_eq!(blipjoy.score, 10);
    let ferris = grid[2][3].as_ref().unwrap();
    assert_eq!(ferris.pos, Point::new(24 + 2 + 48, 64 + 5 + 32));
    let cthulhu = grid[4][10].as_ref().unwrap();
    assert_eq!(cthulhu.pos, Point::new(24 + 1 + 160, 64 + 3 + 64));
    assert_eq!(cthulhu.sprite.width, 14);
}

#[test]
fn default_bounds_cover_the_grid() {
    let b = Bounds::default();
    assert_eq!(b.pos, Point::new(24, 64));
    assert_eq!((b.left_col, b.right_col, b.top_row, b.bottom_row), (0, COLS - 1, 0, ROWS - 1));
    assert_eq!(fleet().get_bounds(), (64, 24 + 11 * 16, 64 + 5 * 16, 24));
}

#[test]
fn shrink_bounds_fits_the_live_invaders() {
    let mut f = fleet();
    // Kill the first column and the top row.
    for r in 0..ROWS {
        f.grid[r][0] = None;
    }
    for c in 0..COLS {
        f.grid[0][c] = None;
    }
    assert!(!f.shrink_bounds());
    assert_eq!((f.bounds.left_col, f.bounds.right_col, f.bounds.top_row, f.bounds.bottom_row), (1, 10, 1, 4));
    assert_eq!(f.bounds.pos, Point::new(24 + 16, 64 + 16));
}

#[test]
fn shrink_bounds_twice_changes_nothing() {
    let mut f = fleet();
    for c in 0..COLS {
        f.grid[0][c] = None;
        f.grid[4][c] = None;
    }
    f.grid[2][0] = None;
    f.grid[1][0] = None;
    f.grid[3][0] = None;
    assert!(!f.shrink_bounds());
    let once = f.bounds;
    assert!(!f.shrink_bounds());
    assert_eq!(f.bounds, once);
    assert_eq!((once.left_col, once.right_col, once.top_row, once.bottom_row), (1, 10, 1, 3));
}

#[test]
fn shrink_bounds_reports_an_empty_fleet() {
    let mut f = fleet();
    for r in 0..ROWS {
        for c in 0..COLS {
            f.grid[r][c] = None;
        }
    }
    let before = f.bounds;
    assert!(f.shrink_bounds());
    assert_eq!(f.bounds, before);
}

#[test]
fn closest_invader_searches_up_then_right() {
    let mut f = fleet();
    assert_eq!(f.get_closest_invader(3).pos, f.grid[4][3].as_ref().unwrap().pos);
    for r in 0..ROWS {
        f.grid[r][3] = None;
    }
    f.grid[4][4] = None;
    let expected = f.grid[3][4].as_ref().unwrap().pos;
    assert_eq!(f.get_closest_invader(3).pos, expected);
    // Wraps around to the first column.
    for r in 0..ROWS {
        f.grid[r][10] = None;
    }
    let first = f.grid[4][0].as_ref().unwrap().pos;
    assert_eq!(f.get_closest_invader(10).pos, first);
}

#[test]
fn next_invader_steps_in_order_and_finds_the_leader() {
    let mut f = fleet();
    let mut stepper = Point::new(COLS - 1, 0);
    let (inv, leader) = next_invader(&mut f.grid, &mut stepper);
    assert!(leader);
    assert_eq!(stepper, Point::new(0, ROWS - 1));
    let pos = inv.pos;
    assert_eq!(pos, f.grid[4][0].as_ref().unwrap().pos);
    let (_, leader) = next_invader(&mut f.grid, &mut stepper);
    assert!(!leader);
    assert_eq!(stepper, Point::new(1, ROWS - 1));
    // Skips dead invaders, row by row from the bottom.
    f.grid[4][2] = None;
    for c in 3..COLS {
        f.grid[4][c] = None;
    }
    let (_, leader) = next_invader(&mut f.grid, &mut stepper);
    assert!(!leader);
    assert_eq!(stepper, Point::new(0, 3));
}

#[test]
fn advance_frames_keeps_the_remainder() {
    let mut acc = 10usize;
    let frames = advance_frames(&mut acc, (FRAME_NANOS * 2) as u32);
    assert_eq!(frames, 2);
    assert_eq!(acc, 10);
    let mut acc = FRAME_NANOS - 1;
    assert_eq!(advance_frames(&mut acc, 1), 1);
    assert_eq!(acc, 0);
}

#[test]
fn update_dt_counts_only_the_fraction_of_a_second() {
    let mut acc = 0usize;
    let frames = update_dt(&mut acc, &Duration::new(1, 50_000_000));
    assert_eq!(frames, 50_000_000 / FRAME_NANOS);
    assert_eq!(acc, 50_000_000 % FRAME_NANOS);
}

#[test]
fn clear_makes_opaque_black() {
    let mut screen = vec![7u8; 12];
    clear(&mut screen);
    assert_eq!(screen, vec![0, 0, 0, 255, 0, 0, 0, 255, 0, 0, 0, 255]);
}

#[test]
fn frames_keep_all_the_time() {
    for (acc, n) in [(0usize, 0u32), (5, 999_999_999), (FRAME_NANOS - 1, 123_456_789)] {
        let mut dt = acc;
        let frames = advance_frames(&mut dt, n);
        assert_eq!(frames * FRAME_NANOS + dt, acc + n as usize);
        assert!(dt < FRAME_NANOS);
    }
}
