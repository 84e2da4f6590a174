//! Texture sizes: checking them against the GPU's limit, and the logical size of a surface.

use vstd::prelude::*;

verus! {

/// All the ways in which creating a texture can fail.
#[derive(Clone, Copy, Debug, PartialEq, Eq, Structural)]
#[non_exhaustive]
pub enum TextureError {
    /// Unable to create a backing texture; Width is either 0 or greater than GPU limits
    TextureWidth(u32),
    /// Unable to create a backing texture; Height is either 0 or greater than GPU limits
    TextureHeight(u32),
}

/// The decimal digits of `n`, most significant first, as `Display` writes an integer.
pub open spec fn decimal(n: nat) -> Seq<char>
    decreases n,
{
    let d = ((n % 10) + 48) as char;
    if n < 10 {
        seq![d]
    } else {
        decimal(n / 10).push(d)
    }
}

/// The message of a texture error.
pub open spec fn error_message(e: TextureError) -> Seq<char> {
    match e {
        TextureError::TextureWidth(w) => "Texture width is invalid: "@ + decimal(w as nat),
        TextureError::TextureHeight(h) => "Texture height is invalid: "@ + decimal(h as nat),
    }
}

impl TextureError {
    /// The error message.
    pub fn to_string(&self) -> (s: String)
        ensures
            s@ == error_message(*self),
    {
        match self {
            TextureError::TextureWidth(w) => format_width(*w),
            TextureError::TextureHeight(h) => format_height(*h),
        }
    }
}

/// Formats the message of a `TextureWidth` error with `format!`, which writes the number in
/// decimal.
#[verifier::external_body]
fn format_width(width: u32) -> (s: String)
    ensures
        s@ == "Texture width is invalid: "@ + decimal(width as nat),
{
    format!("Texture width is invalid: {}", width)
}

/// Formats the message of a `TextureHeight` error with `format!`, which writes the number in
/// decimal.
#[verifier::external_body]
fn format_height(height: u32) -> (s: String)
    ensures
        s@ == "Texture height is invalid: "@ + decimal(height as nat),
{
    format!("Texture height is invalid: {}", height)
}

/// A texture dimension is usable when it is positive and at most the device's limit.
pub open spec fn dimension_ok(limit: u32, d: u32) -> bool {
    0 < d <= limit
}

/// What checking a texture size against a device's largest 2D texture dimension gives: the
/// width is checked first.
pub open spec fn texture_check(limit: u32, width: u32, height: u32) -> Result<(), TextureError> {
    if !dimension_ok(limit, width) {
        Err(TextureError::TextureWidth(width))
    } else if !dimension_ok(limit, height) {
        Err(TextureError::TextureHeight(height))
    } else {
        Ok(())
    }
}

/// Compare the given size to the largest 2D texture dimension of a device
/// (`wgpu::Limits::max_texture_dimension_2d`).
///
/// # Errors
///
/// - [`TextureError::TextureWidth`] when `width` is 0 or greater than the limit.
/// - [`TextureError::TextureHeight`] when `height` is 0 or greater than the limit.
pub fn check_texture_size(max_texture_dimension_2d: u32, width: u32, height: u32) -> (r: Result<
    (),
    TextureError,
>)
    ensures
        r == texture_check(max_texture_dimension_2d, width, height),
        r is Ok <==> dimension_ok(max_texture_dimension_2d, width) && dimension_ok(
            max_texture_dimension_2d,
            height,
        ),
{
    let limit = max_texture_dimension_2d;
    if width == 0 || width > limit {
        return Err(TextureError::TextureWidth(width));
    }
    if height == 0 || height > limit {
        return Err(TextureError::TextureHeight(height));
    }

    Ok(())
}

/// A logical texture size for a window surface.
#[derive(Clone, Copy, Debug, PartialEq, Eq, Structural)]
pub struct SurfaceSize {
    pub width: u32,
    pub height: u32,
}

/// A logical texture for a window surface.
#[derive(Debug)]
pub struct SurfaceTexture<W> {
    pub window: W,
    pub size: SurfaceSize,
}

impl<W> SurfaceTexture<W> {
    /// Create a logical texture for a window surface.
    ///
    /// It is recommended (but not required) that the `width` and `height` are equivalent to the
    /// physical dimensions of the `surface`. E.g. scaled by the HiDPI factor.
    pub fn new(width: u32, height: u32, window: W) -> (t: Self)
        requires
            width > 0,
            height > 0,
        ensures
            t.size == (SurfaceSize { width, height }),
            t.window == window,
    {
        let size = SurfaceSize { width, height };

        Self { window, size }
    }
}

/// Index `i` holds the first sRGB format of a list whose formats are sRGB where `srgb` says so.
pub open spec fn first_srgb(srgb: Seq<bool>, i: int) -> bool {
    &&& 0 <= i < srgb.len()
    &&& srgb[i]
    &&& forall|j: int| 0 <= j < i ==> !srgb[j]
}

/// Pick the texture formats of a pixel buffer: the surface format, as requested, or else the
/// first sRGB format that the surface supports, or else `fallback`; and the render format, as
/// requested, or else the surface format. `srgb` tells which of the `supported` formats use the
/// sRGB color space.
pub fn choose_texture_formats<T: Copy>(
    surface_request: Option<T>,
    render_request: Option<T>,
    supported: &Vec<T>,
    srgb: &Vec<bool>,
    fallback: T,
) -> (r: (T, T))
    requires
        srgb@.len() == supported@.len(),
    ensures
        surface_request matches Some(f) ==> r.0 == f,
        surface_request is None && (forall|i: int| 0 <= i < srgb@.len() ==> !srgb@[i]) ==> r.0
            == fallback,
        surface_request is None ==> forall|i: int| #[trigger] first_srgb(srgb@, i) ==> r.0 == supported@[i],
        render_request matches Some(f) ==> r.1 == f,
        render_request is None ==> r.1 == r.0,
{
    let surface = match surface_request {
        Some(f) => f,
        None => {
            let mut found: Option<T> = None;
            let mut i: usize = 0;
            while i < srgb.len()
                invariant
                    0 <= i <= srgb@.len(),
                    srgb@.len() == supported@.len(),
                    found is None ==> forall|j: int| 0 <= j < i ==> !srgb@[j],
                    found matches Some(f) ==> exists|k: int| #[trigger] first_srgb(srgb@, k) && f == supported@[k],
                decreases srgb@.len() - i,
            {
                if found.is_none() && srgb[i] {
                    found = Some(supported[i]);
                    proof {
                        assert(first_srgb(srgb@, i as int));
                    }
                }
                i = i + 1;
            }
            match found {
                Some(f) => f,
                None => fallback,
            }
        },
    };
    proof {
        assert forall|a: int, b: int| first_srgb(srgb@, a) && first_srgb(srgb@, b) implies a == b by {
            if a < b {
                assert(!srgb@[a]);
            } else if b < a {
                assert(!srgb@[b]);
            }
        }
    }
    let render = match render_request {
        Some(f) => f,
        None => surface,
    };
    (surface, render)
}

} // verus!
