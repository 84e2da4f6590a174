use pixels::loader::{apply_palette, asset_file, key_of, load_assets, load_pcx, push_with_alpha};
use pixels::sprites::Frame;

fn rgb_pcx(width: u16, height: u16, rows: &[Vec<u8>]) -> Vec<u8> {
    let mut out = Vec::new();
    {
        let mut w = pcx::WriterRgb::new(&mut out, (width, height), (100, 100)).unwrap();
        for row in rows {
            w.write_row(row).unwrap();
        }
        w.finish().unwrap();
    }
    out
}

fn paletted_pcx(width: u16, height: u16, rows: &[Vec<u8>], palette: &[u8]) -> Vec<u8> {
    let mut out = Vec::new();
    {
        let mut w = pcx::WriterPaletted::new(&mut out, (width, height), (100, 100)).unwrap();
        for row in rows {
            w.write_row(row).unwrap();
        }
        w.write_palette(palette).unwrap();
    }
    out
}

#[test]
fn load_pcx_rgb_adds_alpha() {
    let data = rgb_pcx(2, 2, &[vec![1, 2, 3, 4, 5, 6], vec![7, 8, 9, 10, 11, 12]]);
    let (w, h, pixels) = load_pcx(&data).expect("decodes");
    assert_eq!((w, h), (2, 2));
    assert_eq!(
        pixels.as_slice(),
        &[1, 2, 3, 255, 4, 5, 6, 255, 7, 8, 9, 255, 10, 11, 12, 255]
    );
}

#[test]
fn load_pcx_paletted_looks_up_colors() {
    let palette = [10, 20, 30, 40, 50, 60, 70, 80, 90];
    let data = paletted_pcx(3, 1, &[vec![2, 0, 1]], &palette);
    let (w, h, pixels) = load_pcx(&data).expect("decodes");
    assert_eq!((w, h), (3, 1));
    // Four bytes per pixel: the palette colors of the indices, with an opaque alpha byte.
    assert_eq!(pixels.as_slice(), &[70, 80, 90, 255, 10, 20, 30, 255, 40, 50, 60, 255]);
}

#[test]
fn load_pcx_rejects_garbage() {
    assert!(load_pcx(&[1, 2, 3]).is_none());
    assert!(load_pcx(&[]).is_none());
}

#[test]
fn apply_palette_checks_indices() {
    let palette = vec![1, 2, 3, 4, 5, 6];
    assert_eq!(apply_palette(&vec![1, 0], &palette, 2), Some(vec![4, 5, 6, 1, 2, 3]));
    assert_eq!(apply_palette(&vec![0, 2], &palette, 2), None);
    assert_eq!(apply_palette(&vec![], &palette, 0), Some(vec![]));
}

#[test]
fn push_with_alpha_appends_opaque_pixels() {
    let mut out = vec![9];
    push_with_alpha(&mut out, &vec![1, 2, 3, 4, 5, 6]);
    assert_eq!(out, vec![9, 1, 2, 3, 255, 4, 5, 6, 255]);
}

#[test]
fn asset_files_of_frames() {
    assert_eq!(asset_file(Frame::Blipjoy1), Some("blipjoy1.pcx"));
    assert_eq!(asset_file(Frame::Shield1), Some("shield.pcx"));
    assert_eq!(asset_file(Frame::Cthulhu1), None);
    assert_eq!(asset_file(Frame::Laser1), None);
}

#[test]
fn frame_keys_are_distinct() {
    let frames = [
        Frame::Blipjoy1,
        Frame::Blipjoy2,
        Frame::Ferris1,
        Frame::Ferris2,
        Frame::Cthulhu1,
        Frame::Cthulhu2,
        Frame::Player1,
        Frame::Player2,
        Frame::Shield1,
        Frame::Bullet1,
        Frame::Laser1,
    ];
    let mut keys: Vec<usize> = frames.iter().map(|f| key_of(*f)).collect();
    keys.sort();
    keys.dedup();
    assert_eq!(keys.len(), 11);
}

#[test]
fn load_assets_keeps_the_last_image_of_a_frame() {
    let first = rgb_pcx(1, 1, &[vec![1, 1, 1]]);
    let second = rgb_pcx(2, 1, &[vec![2, 2, 2, 3, 3, 3]]);
    let shield = rgb_pcx(1, 1, &[vec![4, 5, 6]]);
    let files = vec![(Frame::Player1, first), (Frame::Shield1, shield), (Frame::Player1, second)];
    let assets = load_assets(&files).expect("loads");
    assert_eq!(assets.sprites().len(), 2);
    let player = assets.sprite(Frame::Player1);
    assert_eq!(player.0, 2);
    assert_eq!(player.2.as_slice(), &[2, 2, 2, 255, 3, 3, 3, 255]);
    assert_eq!(assets.sprite(Frame::Shield1).2.as_slice(), &[4, 5, 6, 255]);
}

#[test]
fn load_assets_fails_on_a_bad_image() {
    let files = vec![(Frame::Player1, vec![0u8; 4])];
    assert!(load_assets(&files).is_none());
}
