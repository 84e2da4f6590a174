use pixels::buffer::{zeroed, Pixels, PresentMode};
use pixels::mocks::{Window, RWH};
use pixels::texture::{check_texture_size, choose_texture_formats, SurfaceSize, SurfaceTexture, TextureError};

fn buffer() -> Pixels {
    Pixels::with_texture(8192, 320, 240, SurfaceSize { width: 640, height: 480 }, PresentMode::AutoVsync, 320 * 240 * 4)
        .expect("valid size")
}

#[test]
fn texture_size_within_limit() {
    assert_eq!(check_texture_size(8192, 1, 1), Ok(()));
    assert_eq!(check_texture_size(8192, 8192, 8192), Ok(()));
}

#[test]
fn texture_width_errors_first() {
    assert_eq!(check_texture_size(8192, 0, 0), Err(TextureError::TextureWidth(0)));
    assert_eq!(check_texture_size(8192, 8193, 10), Err(TextureError::TextureWidth(8193)));
}

#[test]
fn texture_height_error() {
    assert_eq!(check_texture_size(8192, 10, 0), Err(TextureError::TextureHeight(0)));
    assert_eq!(check_texture_size(8192, 10, 9000), Err(TextureError::TextureHeight(9000)));
}

#[test]
fn texture_error_messages() {
    assert_eq!(TextureError::TextureWidth(0).to_string(), "Texture width is invalid: 0");
    assert_eq!(TextureError::TextureHeight(70000).to_string(), "Texture height is invalid: 70000");
}

#[test]
fn surface_texture_keeps_its_size() {
    let t = SurfaceTexture::new(640, 480, Window);
    assert_eq!(t.size, SurfaceSize { width: 640, height: 480 });
    let r = SurfaceTexture::new(1, 2, RWH);
    assert_eq!(r.size.height, 2);
}

#[test]
fn new_buffer_is_zeroed() {
    let p = buffer();
    assert_eq!(p.frame().len(), 320 * 240 * 4);
    assert!(p.frame().iter().all(|&b| b == 0));
    assert_eq!(p.present_mode(), PresentMode::AutoVsync);
}

#[test]
fn with_texture_rejects_bad_sizes() {
    let e = Pixels::with_texture(100, 0, 10, SurfaceSize { width: 1, height: 1 }, PresentMode::Fifo, 0);
    assert_eq!(e.unwrap_err(), TextureError::TextureWidth(0));
    let e = Pixels::with_texture(100, 10, 101, SurfaceSize { width: 1, height: 1 }, PresentMode::Fifo, 0);
    assert_eq!(e.unwrap_err(), TextureError::TextureHeight(101));
}

#[test]
fn frame_mut_writes_are_read_back() {
    let mut p = buffer();
    {
        let frame = p.frame_mut();
        frame[0] = 0xff;
        frame[5] = 0x12;
    }
    assert_eq!(p.frame()[0], 0xff);
    assert_eq!(p.frame()[5], 0x12);
    assert_eq!(p.frame()[1], 0);
}

#[test]
fn resize_buffer_zeroes_and_resizes() {
    let mut p = buffer();
    p.frame_mut()[0] = 1;
    assert_eq!(p.resize_buffer(8192, 16, 8, 16 * 8 * 4), Ok(()));
    assert_eq!(p.texture_width, 16);
    assert_eq!(p.texture_height, 8);
    assert_eq!(p.frame().len(), 512);
    assert!(p.frame().iter().all(|&b| b == 0));
}

#[test]
fn resize_buffer_error_changes_nothing() {
    let mut p = buffer();
    p.frame_mut()[3] = 9;
    assert_eq!(p.resize_buffer(8192, 0, 8, 0), Err(TextureError::TextureWidth(0)));
    assert_eq!(p.texture_width, 320);
    assert_eq!(p.frame()[3], 9);
}

#[test]
fn resize_surface_updates_only_the_surface() {
    let mut p = buffer();
    assert_eq!(p.resize_surface(8192, 800, 600), Ok(()));
    assert_eq!(p.surface_size, SurfaceSize { width: 800, height: 600 });
    assert_eq!(p.texture_width, 320);
    assert_eq!(p.resize_surface(8192, 800, 0), Err(TextureError::TextureHeight(0)));
    assert_eq!(p.surface_size, SurfaceSize { width: 800, height: 600 });
}

#[test]
fn vsync_switches_present_mode() {
    let mut p = buffer();
    p.enable_vsync(false);
    assert_eq!(p.present_mode(), PresentMode::AutoNoVsync);
    p.enable_vsync(true);
    assert_eq!(p.present_mode(), PresentMode::AutoVsync);
    p.set_present_mode(PresentMode::Mailbox);
    assert_eq!(p.present_mode(), PresentMode::Mailbox);
}

#[test]
fn clamp_pixel_pos_clamps_each_axis() {
    let p = buffer();
    assert_eq!(p.clamp_pixel_pos((-5, 10)), (0, 10));
    assert_eq!(p.clamp_pixel_pos((1000, -1)), (319, 0));
    assert_eq!(p.clamp_pixel_pos((319, 239)), (319, 239));
    assert_eq!(p.clamp_pixel_pos((320, 240)), (319, 239));
}

#[test]
fn pixel_pos_in_texture_checks_bounds() {
    let p = buffer();
    assert_eq!(p.pixel_pos_in_texture((0, 0)), Ok((0, 0)));
    assert_eq!(p.pixel_pos_in_texture((319, 239)), Ok((319, 239)));
    assert_eq!(p.pixel_pos_in_texture((320, 5)), Err((320, 5)));
    assert_eq!(p.pixel_pos_in_texture((5, -1)), Err((5, -1)));
}

#[test]
fn zeroed_has_the_length() {
    assert_eq!(zeroed(5), vec![0u8; 5]);
    assert!(zeroed(0).is_empty());
}

#[test]
fn clamp_pixel_pos_doc_example() {
    let p = buffer();
    assert_eq!(p.clamp_pixel_pos((-19, 20)), (0, 20));
    assert_eq!(p.clamp_pixel_pos((11, 3000)), (11, 239));
}

#[test]
fn texture_formats_prefer_the_first_srgb_one() {
    let supported = vec![10u8, 20, 30, 40];
    let srgb = vec![false, true, false, true];
    assert_eq!(choose_texture_formats(None, None, &supported, &srgb, 99), (20, 20));
    assert_eq!(choose_texture_formats(None, Some(7), &supported, &srgb, 99), (20, 7));
    assert_eq!(choose_texture_formats(Some(5), None, &supported, &srgb, 99), (5, 5));
    assert_eq!(choose_texture_formats(None, None, &supported, &vec![false; 4], 99), (99, 99));
    assert_eq!(choose_texture_formats(None, None, &vec![], &vec![], 99), (99, 99));
}
