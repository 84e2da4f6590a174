//! The pixel buffer: its texture size, the surface it is shown on, how it is presented, and its
//! bytes.
//!
//! The GPU resources behind a pixel buffer are created and driven by the application; this type
//! holds the state that decides what they must be.

use crate::texture::{check_texture_size, dimension_ok, texture_check, SurfaceSize, TextureError};
use vstd::prelude::*;

verus! {

/// How frames are presented to the surface (the modes of `wgpu::PresentMode`).
#[derive(Clone, Copy, Debug, PartialEq, Eq, Structural)]
pub enum PresentMode {
    AutoVsync,
    AutoNoVsync,
    Fifo,
    FifoRelaxed,
    Immediate,
    Mailbox,
}

/// Represents a 2D pixel buffer with an explicit image resolution.
#[derive(Debug)]
pub struct Pixels {
    pub surface_size: SurfaceSize,
    pub texture_width: u32,
    pub texture_height: u32,
    pub present_mode: PresentMode,
    pub pixels: Vec<u8>,
}

/// A texture dimension that a pixel position of type `isize` can reach.
pub open spec fn fits_isize(d: u32) -> bool {
    d <= isize::MAX
}

/// The present mode that the vsync switch selects.
pub open spec fn vsync_mode(enable_vsync: bool) -> PresentMode {
    if enable_vsync {
        PresentMode::AutoVsync
    } else {
        PresentMode::AutoNoVsync
    }
}

/// Clamp `v` to the range `0..=max`.
pub open spec fn clamp_to(v: int, max: int) -> int {
    if v < 0 {
        0
    } else if v > max {
        max
    } else {
        v
    }
}

impl Pixels {
    /// The texture is at least one pixel wide and high, and its size fits in an `isize`.
    pub open spec fn wf(&self) -> bool {
        &&& self.texture_width > 0
        &&& self.texture_height > 0
        &&& fits_isize(self.texture_width)
        &&& fits_isize(self.texture_height)
    }

    /// Create a pixel buffer of `width` by `height` pixels shown on a surface of
    /// `surface_size`, whose texture needs `pixels_buffer_size` bytes. The buffer starts zeroed.
    ///
    /// # Errors
    ///
    /// - [`TextureError::TextureWidth`] when `width` is 0 or greater than the device limit.
    /// - [`TextureError::TextureHeight`] when `height` is 0 or greater than the device limit.
    pub fn with_texture(
        max_texture_dimension_2d: u32,
        width: u32,
        height: u32,
        surface_size: SurfaceSize,
        present_mode: PresentMode,
        pixels_buffer_size: usize,
    ) -> (r: Result<Pixels, TextureError>)
        requires
            fits_isize(width),
            fits_isize(height),
        ensures
            r is Err ==> r->Err_0 == texture_check(max_texture_dimension_2d, width, height)->Err_0,
            r is Err <==> texture_check(max_texture_dimension_2d, width, height) is Err,
            r is Ok ==> {
                let p = r->Ok_0;
                &&& p.wf()
                &&& p.texture_width == width
                &&& p.texture_height == height
                &&& p.surface_size == surface_size
                &&& p.present_mode == present_mode
                &&& p.pixels@ == Seq::new(pixels_buffer_size as nat, |i: int| 0u8)
            },
    {
        match check_texture_size(max_texture_dimension_2d, width, height) {
            Err(e) => Err(e),
            Ok(()) => {
                let pixels = zeroed(pixels_buffer_size);
                Ok(Pixels { surface_size, texture_width: width, texture_height: height, present_mode, pixels })
            },
        }
    }
}

/// A buffer of `len` zero bytes.
pub fn zeroed(len: usize) -> (v: Vec<u8>)
    ensures
        v@ == Seq::new(len as nat, |i: int| 0u8),
{
    let mut v: Vec<u8> = Vec::with_capacity(len);
    let mut i: usize = 0;
    while i < len
        invariant
            0 <= i <= len,
            v@ == Seq::new(i as nat, |j: int| 0u8),
        decreases len - i,
    {
        v.push(0);
        i = i + 1;
    }
    v
}


impl Pixels {
    /// Resize the pixel buffer and zero its contents.
    ///
    /// This does not resize the surface upon which the pixel buffer texture is rendered. The new
    /// texture of `width` by `height` pixels needs `pixels_buffer_size` bytes.
    ///
    /// # Errors
    ///
    /// - [`TextureError::TextureWidth`] when `width` is 0 or greater than the device limit.
    /// - [`TextureError::TextureHeight`] when `height` is 0 or greater than the device limit.
    ///
    /// On error nothing changes.
    pub fn resize_buffer(
        &mut self,
        max_texture_dimension_2d: u32,
        width: u32,
        height: u32,
        pixels_buffer_size: usize,
    ) -> (r: Result<(), TextureError>)
        requires
            old(self).wf(),
            fits_isize(width),
            fits_isize(height),
        ensures
            final(self).wf(),
            r == texture_check(max_texture_dimension_2d, width, height),
            r is Err ==> *final(self) == *old(self),
            r is Ok ==> {
                &&& final(self).texture_width == width
                &&& final(self).texture_height == height
                &&& final(self).surface_size == old(self).surface_size
                &&& final(self).present_mode == old(self).present_mode
                &&& final(self).pixels@ == Seq::new(pixels_buffer_size as nat, |i: int| 0u8)
            },
    {
        check_texture_size(max_texture_dimension_2d, width, height)?;
        self.texture_width = width;
        self.texture_height = height;
        self.pixels = zeroed(pixels_buffer_size);
        Ok(())
    }

    /// Resize the surface upon which the pixel buffer texture is rendered.
    ///
    /// This does not resize the pixel buffer. The size is in physical pixel units.
    ///
    /// # Errors
    ///
    /// - [`TextureError::TextureWidth`] when `width` is 0 or greater than the device limit.
    /// - [`TextureError::TextureHeight`] when `height` is 0 or greater than the device limit.
    ///
    /// On error nothing changes.
    pub fn resize_surface(&mut self, max_texture_dimension_2d: u32, width: u32, height: u32) -> (r:
        Result<(), TextureError>)
        requires
            old(self).wf(),
        ensures
            final(self).wf(),
            r == texture_check(max_texture_dimension_2d, width, height),
            r is Err ==> *final(self) == *old(self),
            r is Ok ==> final(self).surface_size == (SurfaceSize { width, height }),
            final(self).texture_width == old(self).texture_width,
            final(self).texture_height == old(self).texture_height,
            final(self).present_mode == old(self).present_mode,
            final(self).pixels == old(self).pixels,
    {
        check_texture_size(max_texture_dimension_2d, width, height)?;

        // Update SurfaceTexture dimensions
        self.surface_size.width = width;
        self.surface_size.height = height;
        Ok(())
    }

    /// Enable or disable Vsync.
    ///
    /// The present mode is set to `AutoVsync` when Vsync is enabled, or `AutoNoVsync` when Vsync
    /// is disabled.
    pub fn enable_vsync(&mut self, enable_vsync: bool)
        ensures
            final(self).present_mode == vsync_mode(enable_vsync),
            final(self).surface_size == old(self).surface_size,
            final(self).texture_width == old(self).texture_width,
            final(self).texture_height == old(self).texture_height,
            final(self).pixels == old(self).pixels,
    {
        self.present_mode = if enable_vsync {
            PresentMode::AutoVsync
        } else {
            PresentMode::AutoNoVsync
        };
    }

    /// Get the present mode.
    pub fn present_mode(&self) -> (m: PresentMode)
        ensures
            m == self.present_mode,
    {
        self.present_mode
    }

    /// Set the present mode.
    ///
    /// This differs from [`Pixels::enable_vsync`] by allowing the present mode to be set to any
    /// value.
    pub fn set_present_mode(&mut self, present_mode: PresentMode)
        ensures
            final(self).present_mode == present_mode,
            final(self).surface_size == old(self).surface_size,
            final(self).texture_width == old(self).texture_width,
            final(self).texture_height == old(self).texture_height,
            final(self).pixels == old(self).pixels,
    {
        self.present_mode = present_mode;
    }

    /// Get a mutable byte slice for the pixel buffer. The buffer is _not_ cleared for you; it
    /// will retain the previous frame's contents until you clear it yourself.
    pub fn frame_mut(&mut self) -> (frame: &mut [u8])
        ensures
            frame@ == old(self).pixels@,
            final(self).pixels@ == final(frame)@,
            final(self).surface_size == old(self).surface_size,
            final(self).texture_width == old(self).texture_width,
            final(self).texture_height == old(self).texture_height,
            final(self).present_mode == old(self).present_mode,
    {
        self.pixels.as_mut_slice()
    }

    /// Get an immutable byte slice for the pixel buffer.
    pub fn frame(&self) -> (frame: &[u8])
        ensures
            frame@ == self.pixels@,
    {
        self.pixels.as_slice()
    }

    /// Clamp a pixel position to the pixel buffer texture size.
    pub fn clamp_pixel_pos(&self, pos: (isize, isize)) -> (p: (usize, usize))
        requires
            self.wf(),
        ensures
            p.0 == clamp_to(pos.0 as int, self.texture_width - 1),
            p.1 == clamp_to(pos.1 as int, self.texture_height - 1),
    {
        let max_x = self.texture_width as isize - 1;
        let max_y = self.texture_height as isize - 1;
        let x = if pos.0 < 0 {
            0
        } else if pos.0 > max_x {
            max_x
        } else {
            pos.0
        };
        let y = if pos.1 < 0 {
            0
        } else if pos.1 > max_y {
            max_y
        } else {
            pos.1
        };
        (x as usize, y as usize)
    }

    /// Check that a pixel position, found from a physical position on the window, lies within
    /// the pixel buffer texture.
    ///
    /// Returns the position as `usize` coordinates when it does, and the position unchanged as
    /// the error when it does not.
    pub fn pixel_pos_in_texture(&self, pos: (isize, isize)) -> (r: Result<(usize, usize), (isize, isize)>)
        requires
            self.wf(),
        ensures
            r is Ok <==> 0 <= pos.0 < self.texture_width && 0 <= pos.1 < self.texture_height,
            r is Ok ==> r->Ok_0 == (pos.0 as usize, pos.1 as usize),
            r is Err ==> r->Err_0 == pos,
    {
        let (pixel_x, pixel_y) = pos;
        if pixel_x < 0 || pixel_x >= self.texture_width as isize || pixel_y < 0
            || pixel_y >= self.texture_height as isize {
            Err((pixel_x, pixel_y))
        } else {
            Ok((pixel_x as usize, pixel_y as usize))
        }
    }
}

} // verus!
