//! Sprites: pixel data that can be drawn into the screen buffer, and animated.

use crate::geo::Point;
use crate::loader::{frame_key, Assets, CachedSprite};
use crate::timing::{duration_as_nanos, duration_nanos, NANOS_PER_SEC};
use std::rc::Rc;
use std::time::Duration;
use vstd::arithmetic::div_mod::lemma_fundamental_div_mod_converse;
use vstd::prelude::*;

verus! {

/// The screen width is constant (units are in pixels).
pub const SCREEN_WIDTH: usize = 224;

/// The screen height is constant (units are in pixels).
pub const SCREEN_HEIGHT: usize = 256;

/// Bytes in one row of the screen buffer (four bytes per pixel).
pub open spec fn screen_stride() -> int {
    896
}

/// Frame identifier for managing animations.
#[derive(Clone, Copy, Debug, PartialEq, Eq, Hash, Structural)]
pub enum Frame {
    Blipjoy1,
    Blipjoy2,
    Ferris1,
    Ferris2,
    Cthulhu1,
    Cthulhu2,
    Player1,
    Player2,
    Shield1,
    Bullet1,
    Laser1,
}

/// The frame that follows `f` in its animation. Animated frames come in pairs that alternate;
/// the shield has a single frame.
pub open spec fn next_frame(f: Frame) -> Frame {
    match f {
        Frame::Blipjoy1 => Frame::Blipjoy2,
        Frame::Blipjoy2 => Frame::Blipjoy1,
        Frame::Ferris1 => Frame::Ferris2,
        Frame::Ferris2 => Frame::Ferris1,
        Frame::Cthulhu1 => Frame::Cthulhu2,
        Frame::Cthulhu2 => Frame::Cthulhu1,
        Frame::Player1 => Frame::Player2,
        Frame::Player2 => Frame::Player1,
        Frame::Shield1 => Frame::Shield1,
        Frame::Bullet1 => Frame::Bullet1,
        Frame::Laser1 => Frame::Laser1,
    }
}

/// The frame reached from `f` after `n` animation steps.
pub open spec fn frame_after(f: Frame, n: nat) -> Frame
    decreases n,
{
    if n == 0 {
        f
    } else {
        frame_after(next_frame(f), (n - 1) as nat)
    }
}

/// Stepping an animation twice shows the frame it started with.
pub proof fn lemma_next_frame_twice(f: Frame)
    ensures
        next_frame(next_frame(f)) == f,
{
}

/// After an even number of steps an animation shows its starting frame, after an odd number
/// the other frame of its pair.
pub proof fn lemma_frame_after_parity(f: Frame, n: nat)
    ensures
        frame_after(f, n) == if n % 2 == 0 { f } else { next_frame(f) },
    decreases n,
{
    if n > 0 {
        lemma_frame_after_parity(next_frame(f), (n - 1) as nat);
    }
}

/// Drawables can be blitted to the pixel buffer and animated.
pub trait Drawable {
    /// The width in pixels.
    spec fn spec_width(&self) -> usize;

    /// The height in pixels.
    spec fn spec_height(&self) -> usize;

    /// The RGBA bytes, row by row.
    spec fn spec_pixels(&self) -> Seq<u8>;

    fn width(&self) -> (r: usize)
        ensures
            r == self.spec_width(),
    ;

    fn height(&self) -> (r: usize)
        ensures
            r == self.spec_height(),
    ;

    fn pixels(&self) -> (r: &[u8])
        ensures
            r@ == self.spec_pixels(),
    ;
}

/// Sprites can be drawn and procedurally generated.
///
/// A `Sprite` owns its pixel data, and cannot be animated. Use a `SpriteRef` if you need
/// animations.
#[derive(Debug)]
pub struct Sprite {
    pub width: usize,
    pub height: usize,
    pub pixels: Vec<u8>,
}

/// SpriteRefs can be drawn and animated.
///
/// They share their pixel data with the assets (instead of owning it). The animation period and
/// the time accumulated towards the next frame are kept in nanoseconds.
#[derive(Debug)]
pub struct SpriteRef {
    pub width: usize,
    pub height: usize,
    pub pixels: Rc<Vec<u8>>,
    pub frame: Frame,
    pub duration: u128,
    pub dt: u128,
}

/// Calls `Rc::clone`, which makes another pointer to the same allocation; the pointee is
/// therefore the same value.
#[verifier::external_body]
fn share_pixels(pixels: &Rc<Vec<u8>>) -> (r: Rc<Vec<u8>>)
    ensures
        r == *pixels,
{
    Rc::clone(pixels)
}

impl Sprite {
    /// A sprite that owns a copy of the pixels that the assets hold for `frame`.
    pub fn new(assets: &Assets, frame: Frame) -> (s: Sprite)
        requires
            assets.spec_sprites().contains_key(frame_key(frame)),
        ensures
            s.width == assets.spec_sprites()[frame_key(frame)].0,
            s.height == assets.spec_sprites()[frame_key(frame)].1,
            s.pixels@ == assets.spec_sprites()[frame_key(frame)].2@,
    {
        let cached = assets.sprite(frame);
        let pixels: &Vec<u8> = &cached.2;
        let copy = pixels.clone();
        assert(copy@ =~= pixels@);
        Sprite { width: cached.0, height: cached.1, pixels: copy }
    }
}

impl SpriteRef {
    /// A sprite that shares the pixels that the assets hold for `frame`, animated once per
    /// `duration`. The period is read from `duration` in whole nanoseconds; the result is that of
    /// `with_period` for that number.
    pub fn new(assets: &Assets, frame: Frame, duration: Duration) -> (s: SpriteRef)
        requires
            assets.spec_sprites().contains_key(frame_key(frame)),
        ensures
            s.width == assets.spec_sprites()[frame_key(frame)].0,
            s.height == assets.spec_sprites()[frame_key(frame)].1,
            s.pixels == assets.spec_sprites()[frame_key(frame)].2,
            s.frame == frame,
            s.duration == duration_nanos(duration),
            s.dt == 0,
            s.wf(),
    {
        SpriteRef::with_period(assets, frame, duration_as_nanos(&duration))
    }

    /// A sprite that shares the pixels that the assets hold for `frame`, animated once every
    /// `period` nanoseconds.
    pub fn with_period(assets: &Assets, frame: Frame, period: u128) -> (s: SpriteRef)
        requires
            assets.spec_sprites().contains_key(frame_key(frame)),
            period <= crate::timing::max_duration_nanos(),
        ensures
            s.width == assets.spec_sprites()[frame_key(frame)].0,
            s.height == assets.spec_sprites()[frame_key(frame)].1,
            s.pixels == assets.spec_sprites()[frame_key(frame)].2,
            s.frame == frame,
            s.duration == period,
            s.dt == 0,
            s.wf(),
    {
        let cached = assets.sprite(frame);
        SpriteRef {
            width: cached.0,
            height: cached.1,
            pixels: share_pixels(&cached.2),
            frame,
            duration: period,
            dt: 0,
        }
    }

    /// The animation clock stays within what a `Duration` can hold, and below one period
    /// whenever the period is counted.
    pub open spec fn wf(&self) -> bool {
        &&& self.duration <= crate::timing::max_duration_nanos()
        &&& self.dt <= crate::timing::max_duration_nanos()
        &&& self.duration % NANOS_PER_SEC != 0 ==> self.dt < self.duration
    }

    /// Switch to the next frame of the animation, taking its pixels from the assets.
    pub fn step_frame(&mut self, assets: &Assets)
        requires
            assets.spec_sprites().contains_key(frame_key(next_frame(old(self).frame))),
        ensures
            final(self).frame == next_frame(old(self).frame),
            final(self).pixels == assets.spec_sprites()[frame_key(next_frame(old(self).frame))].2,
            final(self).width == old(self).width,
            final(self).height == old(self).height,
            final(self).duration == old(self).duration,
            final(self).dt == old(self).dt,
    {
        let frame = match self.frame {
            Frame::Blipjoy1 => Frame::Blipjoy2,
            Frame::Blipjoy2 => Frame::Blipjoy1,
            Frame::Ferris1 => Frame::Ferris2,
            Frame::Ferris2 => Frame::Ferris1,
            Frame::Cthulhu1 => Frame::Cthulhu2,
            Frame::Cthulhu2 => Frame::Cthulhu1,
            Frame::Player1 => Frame::Player2,
            Frame::Player2 => Frame::Player1,
            // This should not happen, but here we are!
            Frame::Shield1 => Frame::Shield1,
            // Projectiles have a single frame.
            Frame::Bullet1 => Frame::Bullet1,
            Frame::Laser1 => Frame::Laser1,
        };
        let cached = assets.sprite(frame);
        self.pixels = share_pixels(&cached.2);
        self.frame = frame;
    }
}

impl SpriteRef {
    /// Another reference to the same sprite: the pixels are shared, the rest copied.
    pub fn share(&self) -> (s: SpriteRef)
        ensures
            s == *self,
    {
        SpriteRef {
            width: self.width,
            height: self.height,
            pixels: share_pixels(&self.pixels),
            frame: self.frame,
            duration: self.duration,
            dt: self.dt,
        }
    }
}

impl SpriteRef {
    /// Advance the animation clock by `dt` nanoseconds.
    ///
    /// A sprite whose period has no fractional second steps one frame on every call. Otherwise
    /// the elapsed time accumulates and the sprite steps one frame per full period.
    pub fn animate_nanos(&mut self, assets: &Assets, dt: u128)
        requires
            old(self).wf(),
            dt <= crate::timing::max_duration_nanos(),
            assets.spec_sprites().contains_key(frame_key(next_frame(old(self).frame))),
            assets.spec_sprites().contains_key(frame_key(old(self).frame)),
        ensures
            animated(assets, *old(self), *final(self), dt),
    {
        if self.duration % NANOS_PER_SEC == 0 {
            self.step_frame(assets);
            assert(frame_after(old(self).frame, 1) == next_frame(old(self).frame)) by {
                reveal_with_fuel(frame_after, 2);
            }
        } else {
            let ghost start = self.dt + dt;
            self.dt = self.dt + dt;
            let ghost mut steps: nat = 0;
            while self.dt >= self.duration
                invariant
                    self.duration == old(self).duration,
                    self.duration % NANOS_PER_SEC != 0,
                    self.duration <= crate::timing::max_duration_nanos(),
                    self.width == old(self).width,
                    self.height == old(self).height,
                    start == old(self).dt + dt,
                    start == self.dt + steps * self.duration,
                    self.frame == frame_after(old(self).frame, steps),
                    steps > 0 ==> self.pixels == assets.spec_sprites()[frame_key(self.frame)].2,
                    steps == 0 ==> self.pixels == old(self).pixels,
                    assets.spec_sprites().contains_key(frame_key(next_frame(old(self).frame))),
                    assets.spec_sprites().contains_key(frame_key(old(self).frame)),
                decreases self.dt,
            {
                self.dt = self.dt - self.duration;
                proof {
                    lemma_frame_after_parity(old(self).frame, steps);
                    lemma_frame_after_parity(old(self).frame, steps + 1);
                    lemma_frame_after_step(old(self).frame, steps);
                    assert((steps + 1) * self.duration == steps * self.duration + self.duration)
                        by (nonlinear_arith);
                }
                self.step_frame(assets);
                proof {
                    steps = steps + 1;
                }
            }
            proof {
                lemma_fundamental_div_mod_converse(
                    start as int,
                    self.duration as int,
                    steps as int,
                    self.dt as int,
                );
            }
        }
    }

    /// Advance the animation clock by the time `dt`.
    ///
    /// The elapsed time is read from `dt` in whole nanoseconds; the result is that of
    /// `animate_nanos` for that number.
    pub fn animate(&mut self, assets: &Assets, dt: Duration)
        requires
            old(self).wf(),
            assets.spec_sprites().contains_key(frame_key(next_frame(old(self).frame))),
            assets.spec_sprites().contains_key(frame_key(old(self).frame)),
        ensures
            animated(assets, *old(self), *final(self), duration_nanos(dt)),
    {
        let n = duration_as_nanos(&dt);
        self.animate_nanos(assets, n);
    }
}

/// `s1` is the sprite `s0` after `dt` nanoseconds of animation: it stepped `animation_steps`
/// frames and shows the pixels of the frame it reached, with its clock advanced.
pub open spec fn animated(assets: &Assets, s0: SpriteRef, s1: SpriteRef, dt: u128) -> bool {
    &&& s1.wf()
    &&& s1.width == s0.width
    &&& s1.height == s0.height
    &&& s1.duration == s0.duration
    &&& s1.frame == frame_after(s0.frame, animation_steps(s0, dt))
    &&& s1.dt == animation_clock(s0, dt)
    &&& animation_steps(s0, dt) > 0 ==> s1.pixels == assets.spec_sprites()[frame_key(s1.frame)].2
    &&& animation_steps(s0, dt) == 0 ==> s1.pixels == s0.pixels
}

/// The number of frames that an animation steps when `dt` nanoseconds pass.
pub open spec fn animation_steps(s: SpriteRef, dt: u128) -> nat {
    if s.duration % NANOS_PER_SEC == 0 {
        1
    } else {
        ((s.dt + dt) / (s.duration as int)) as nat
    }
}

/// The animation clock after `dt` nanoseconds pass.
pub open spec fn animation_clock(s: SpriteRef, dt: u128) -> u128 {
    if s.duration % NANOS_PER_SEC == 0 {
        s.dt
    } else {
        ((s.dt + dt) % (s.duration as int)) as u128
    }
}

/// Animating for `a` nanoseconds and then for `b` more is animating for `a + b` at once, for a
/// sprite whose period has a fractional second. (A sprite whose period is whole seconds, such as
/// an invader's, steps once per call instead, so two calls step twice.)
pub proof fn lemma_animate_in_two(
    assets: &Assets,
    s0: SpriteRef,
    s1: SpriteRef,
    s2: SpriteRef,
    a: u128,
    b: u128,
)
    requires
        s0.wf(),
        s0.duration % NANOS_PER_SEC != 0,
        a + b <= u128::MAX,
        animated(assets, s0, s1, a),
        animated(assets, s1, s2, b),
    ensures
        animated(assets, s0, s2, (a + b) as u128),
{
    let p = s0.duration as int;
    let d = s0.dt as int;
    let m = ((d + a) / p) as nat;
    let c = (d + a) % p;
    let n = ((c + b) / p) as nat;
    let e = (c + b) % p;
    assert(p > 0);
    vstd::arithmetic::div_mod::lemma_fundamental_div_mod(d + a, p);
    vstd::arithmetic::div_mod::lemma_fundamental_div_mod(c + b, p);
    assert(d + a + b == (m + n) * p + e) by (nonlinear_arith)
        requires
            d + a == p * m + c,
            c + b == p * n + e,
    ;
    vstd::arithmetic::div_mod::lemma_fundamental_div_mod_converse(d + a + b, p, (m + n) as int, e);
    lemma_frame_after_parity(s0.frame, m);
    lemma_frame_after_parity(s1.frame, n);
    lemma_frame_after_parity(s0.frame, m + n);
    lemma_next_frame_twice(s0.frame);
}

/// One more step after `n` steps is the frame after the frame reached in `n` steps.
pub proof fn lemma_frame_after_step(f: Frame, n: nat)
    ensures
        frame_after(f, n + 1) == next_frame(frame_after(f, n)),
    decreases n,
{
    reveal_with_fuel(frame_after, 2);
    if n > 0 {
        lemma_frame_after_step(next_frame(f), (n - 1) as nat);
    }
}

impl Drawable for Sprite {
    open spec fn spec_width(&self) -> usize {
        self.width
    }

    open spec fn spec_height(&self) -> usize {
        self.height
    }

    open spec fn spec_pixels(&self) -> Seq<u8> {
        self.pixels@
    }

    fn width(&self) -> (r: usize) {
        self.width
    }

    fn height(&self) -> (r: usize) {
        self.height
    }

    fn pixels(&self) -> (r: &[u8]) {
        self.pixels.as_slice()
    }
}

impl Drawable for SpriteRef {
    open spec fn spec_width(&self) -> usize {
        self.width
    }

    open spec fn spec_height(&self) -> usize {
        self.height
    }

    open spec fn spec_pixels(&self) -> Seq<u8> {
        self.pixels@
    }

    fn width(&self) -> (r: usize) {
        self.width
    }

    fn height(&self) -> (r: usize) {
        self.height
    }

    fn pixels(&self) -> (r: &[u8]) {
        self.pixels.as_slice()
    }
}


/// The byte at offset `k` of a screen after the rows `0..h` of a sprite were copied to it, the
/// first row starting at byte `base`, each row `w4` bytes long and one screen row below the
/// previous one. Where rows overlap (a sprite wider than the screen), the later row wins.
pub open spec fn blit_byte(screen: Seq<u8>, base: int, w4: int, h: int, src: Seq<u8>, k: int) -> u8 {
    let t = k - base;
    if 0 <= t && h > 0 {
        let y = if t / screen_stride() < h - 1 {
            t / screen_stride()
        } else {
            h - 1
        };
        let u = t - y * screen_stride();
        if u < w4 {
            src[y * w4 + u]
        } else {
            screen[k]
        }
    } else {
        screen[k]
    }
}

/// The screen after a `w` by `h` sprite with bytes `src` is blitted at `dest`.
pub open spec fn blit_screen(screen: Seq<u8>, dest: Point, w: int, h: int, src: Seq<u8>) -> Seq<u8> {
    Seq::new(
        screen.len(),
        |k: int| blit_byte(screen, dest.x * 4 + dest.y * screen_stride(), w * 4, h, src, k),
    )
}

/// Blitting one more row changes exactly the bytes of that row.
proof fn lemma_blit_next_row(screen: Seq<u8>, base: int, w4: int, y: int, src: Seq<u8>, k: int)
    requires
        0 <= y,
        0 <= w4,
    ensures
        blit_byte(screen, base, w4, y + 1, src, k) == if base + y * screen_stride() <= k < base + y
            * screen_stride() + w4 {
            src[y * w4 + (k - base - y * screen_stride())]
        } else {
            blit_byte(screen, base, w4, y, src, k)
        },
{
    let t = k - base;
    let s = screen_stride();
    if t >= 0 {
        vstd::arithmetic::div_mod::lemma_fundamental_div_mod(t, s);
        if t < y * s {
            assert(t / s < y) by (nonlinear_arith)
                requires
                    t == s * (t / s) + t % s,
                    0 <= t % s < s,
                    t < y * s,
                    s > 0,
            ;
        } else {
            assert(t / s >= y) by (nonlinear_arith)
                requires
                    t == s * (t / s) + t % s,
                    0 <= t % s < s,
                    t >= y * s,
                    s > 0,
            ;
            if y > 0 {
                assert((y - 1) * s == y * s - s) by (nonlinear_arith);
            }
        }
    }
}

/// Blit a drawable to the pixel buffer.
///
/// Row `y` of the sprite is copied to the screen starting at pixel `(dest.x, dest.y + y)`.
pub fn blit<S: Drawable>(screen: &mut [u8], dest: &Point, sprite: &S)
    requires
        sprite.spec_width() * 4 <= usize::MAX,
        sprite.spec_height() > 0 ==> sprite.spec_height() * (sprite.spec_width() * 4)
            <= sprite.spec_pixels().len(),
        sprite.spec_height() > 0 ==> dest.x * 4 + (dest.y + sprite.spec_height() - 1)
            * screen_stride() + sprite.spec_width() * 4 <= old(screen)@.len(),
    ensures
        final(screen)@ == blit_screen(
            old(screen)@,
            *dest,
            sprite.spec_width() as int,
            sprite.spec_height() as int,
            sprite.spec_pixels(),
        ),
{
    let pixels = sprite.pixels();
    let width = sprite.width() * 4;
    let height = sprite.height();
    let ghost base = dest.x * 4 + dest.y * screen_stride();
    let screen_len = screen.len();
    let pixels_len = pixels.len();

    proof {
        assert(blit_screen(old(screen)@, *dest, sprite.spec_width() as int, 0, pixels@)
            =~= old(screen)@);
    }
    let mut s: usize = 0;
    let mut y: usize = 0;
    while y < height
        invariant
            0 <= y <= height,
            width == sprite.spec_width() * 4,
            height == sprite.spec_height(),
            pixels@ == sprite.spec_pixels(),
            base == dest.x * 4 + dest.y * screen_stride(),
            screen_len == old(screen)@.len(),
            pixels_len == pixels@.len(),
            height > 0 ==> height * width <= pixels@.len(),
            height > 0 ==> base + (height - 1) * screen_stride() + width <= old(screen)@.len(),
            s == y * width,
            screen@ == blit_screen(old(screen)@, *dest, sprite.spec_width() as int, y as int, pixels@),
        decreases height - y,
    {
        proof {
            assert(y * screen_stride() <= (height - 1) * screen_stride());
            assert(y * width + width <= height * width) by (nonlinear_arith)
                requires
                    y + 1 <= height,
                    width >= 0,
            ;
        }
        let i = dest.x * 4 + dest.y * SCREEN_WIDTH * 4 + y * SCREEN_WIDTH * 4;
        let ghost before = screen@;
        let mut j: usize = 0;
        while j < width
            invariant
                0 <= j <= width,
                i == base + y * screen_stride(),
                i + width <= old(screen)@.len(),
                screen_len == old(screen)@.len(),
                pixels_len == pixels@.len(),
                s + width <= pixels@.len(),
                screen@.len() == before.len(),
                before.len() == old(screen)@.len(),
                forall|k: int|
                    0 <= k < screen@.len() ==> #[trigger] screen@[k] == if i <= k < i + j {
                        pixels@[s + (k - i)]
                    } else {
                        before[k]
                    },
            decreases width - j,
        {
            screen[i + j] = pixels[s + j];
            j = j + 1;
        }
        proof {
            let next = blit_screen(old(screen)@, *dest, sprite.spec_width() as int, y + 1, pixels@);
            assert forall|k: int| 0 <= k < screen@.len() implies #[trigger] screen@[k] == next[k] by {
                lemma_blit_next_row(old(screen)@, base, width as int, y as int, pixels@, k);
            }
            assert(screen@ =~= next);
            assert((y + 1) * width == y * width + width) by (nonlinear_arith);
        }
        s = s + width;
        y = y + 1;
    }
}

} // verus!
