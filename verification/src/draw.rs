//! Drawing the game world into a screen buffer.

use crate::geo::Point;
use crate::invaders::{clear, cleared_byte, invader_at, live, Invader, Laser, Shield, COLS, ROWS};
use crate::sprites::{blit, blit_byte, blit_screen, screen_stride, Drawable, SpriteRef, SCREEN_WIDTH};
use crate::world::World;
use vstd::prelude::*;

verus! {

/// A `w` by `h` sprite with `pixels_len` bytes can be blitted at `pos` into a screen of
/// `screen_len` bytes: the sprite holds its rows, and its last row ends within the screen.
pub open spec fn blit_fits(pos: Point, w: usize, h: usize, pixels_len: int, screen_len: int) -> bool {
    &&& w * 4 <= usize::MAX
    &&& h > 0 ==> h * (w * 4) <= pixels_len
    &&& h > 0 ==> pos.x * 4 + (pos.y + h - 1) * screen_stride() + w * 4 <= screen_len
}

/// A shared sprite at `pos` can be blitted into a screen of `screen_len` bytes.
pub open spec fn sprite_ref_fits(pos: Point, s: SpriteRef, screen_len: int) -> bool {
    blit_fits(pos, s.width, s.height, s.spec_pixels().len() as int, screen_len)
}

/// The screen after the sprite `s` is blitted at `pos`.
pub open spec fn blit_ref(screen: Seq<u8>, pos: Point, s: SpriteRef) -> Seq<u8> {
    blit_screen(screen, pos, s.width as int, s.height as int, s.spec_pixels())
}

/// A cleared screen of `len` bytes.
pub open spec fn cleared_screen(len: int) -> Seq<u8> {
    Seq::new(len as nat, |i: int| cleared_byte(i))
}

/// The screen after the live invaders among the first `n` cells of the grid, in row-major
/// order, are blitted.
pub open spec fn blit_invaders(screen: Seq<u8>, grid: Seq<Vec<Option<Invader>>>, n: int) -> Seq<u8>
    decreases n,
{
    if n <= 0 {
        screen
    } else {
        let prev = blit_invaders(screen, grid, n - 1);
        let (r, c) = ((n - 1) / (COLS as int), (n - 1) % (COLS as int));
        if live(grid, r, c) {
            blit_ref(prev, invader_at(grid, r, c).pos, invader_at(grid, r, c).sprite)
        } else {
            prev
        }
    }
}

/// The screen after the first `n` shields are blitted.
pub open spec fn blit_shields(screen: Seq<u8>, shields: Seq<Shield>, n: int) -> Seq<u8>
    decreases n,
{
    if n <= 0 {
        screen
    } else {
        let s = shields[n - 1];
        blit_screen(
            blit_shields(screen, shields, n - 1),
            s.pos,
            s.sprite.width as int,
            s.sprite.height as int,
            s.sprite.pixels@,
        )
    }
}

/// The screen after the first `n` lasers are blitted.
pub open spec fn blit_lasers(screen: Seq<u8>, lasers: Seq<Laser>, n: int) -> Seq<u8>
    decreases n,
{
    if n <= 0 {
        screen
    } else {
        let l = lasers[n - 1];
        blit_ref(blit_lasers(screen, lasers, n - 1), l.pos, l.sprite)
    }
}

/// The picture of the world on a screen of `len` bytes: a cleared screen, then the invaders row
/// by row, the shields, the player, the bullet and the lasers.
pub open spec fn drawn(w: &World, len: int) -> Seq<u8> {
    let s0 = cleared_screen(len);
    let s1 = if w.invaders is Some {
        blit_invaders(s0, w.invaders->Some_0.grid@, ROWS * COLS)
    } else {
        s0
    };
    let s2 = blit_shields(s1, w.shields@, w.shields@.len() as int);
    let s3 = if w.player is Some {
        blit_ref(s2, w.player->Some_0.pos, w.player->Some_0.sprite)
    } else {
        s2
    };
    let s4 = if w.bullet is Some {
        blit_ref(s3, w.bullet->Some_0.pos, w.bullet->Some_0.sprite)
    } else {
        s3
    };
    blit_lasers(s4, w.lasers@, w.lasers@.len() as int)
}

/// Every sprite of the world can be blitted into a screen of `len` bytes, and the screen is as
/// large as the collision mask.
pub open spec fn draw_fits(w: &World, len: int) -> bool {
    &&& len == w.collision.pixel_mask@.len()
    &&& w.invaders is Some ==> forall|r: int, c: int|
        #[trigger] live(w.invaders->Some_0.grid@, r, c) ==> sprite_ref_fits(
            invader_at(w.invaders->Some_0.grid@, r, c).pos,
            invader_at(w.invaders->Some_0.grid@, r, c).sprite,
            len,
        )
    &&& forall|i: int|
        0 <= i < w.shields@.len() ==> blit_fits(
            #[trigger] w.shields@[i].pos,
            w.shields@[i].sprite.width,
            w.shields@[i].sprite.height,
            w.shields@[i].sprite.pixels@.len() as int,
            len,
        )
    &&& w.player is Some ==> sprite_ref_fits(w.player->Some_0.pos, w.player->Some_0.sprite, len)
    &&& w.bullet is Some ==> sprite_ref_fits(w.bullet->Some_0.pos, w.bullet->Some_0.sprite, len)
    &&& forall|i: int|
        0 <= i < w.lasers@.len() ==> sprite_ref_fits(#[trigger] w.lasers@[i].pos, w.lasers@[i].sprite, len)
}

/// Whether a `w` by `h` sprite with `pixels_len` bytes at `pos` fits a screen of `screen_len`
/// bytes; the sums are taken in `u128`, where they cannot wrap.
fn check_blit(pos: Point, w: usize, h: usize, pixels_len: usize, screen_len: usize) -> (ok: bool)
    ensures
        ok == blit_fits(pos, w, h, pixels_len as int, screen_len as int),
{
    let w4 = (w as u128) * 4;
    if w4 > usize::MAX as u128 {
        return false;
    }
    if h == 0 {
        return true;
    }
    let end = (pos.x as u128) * 4 + ((pos.y as u128) + (h as u128) - 1) * 896 + w4;
    match (h as u128).checked_mul(w4) {
        Some(rows) => rows <= pixels_len as u128 && end <= screen_len as u128,
        None => false,
    }
}

impl World {
    /// Whether every sprite of the world fits a screen of `len` bytes (see `draw_fits`).
    pub fn can_draw(&self, len: usize) -> (ok: bool)
        requires
            self.wf(),
        ensures
            ok == draw_fits(self, len as int),
    {
        if len != self.collision.pixel_mask.len() {
            return false;
        }
        if self.invaders.is_some() {
            let grid = &self.invaders.as_ref().unwrap().grid;
            let ghost g = grid@;
            proof {
                assert(crate::world::fleet_ok(&self.invaders->Some_0, self.gameover));
                assert(crate::invaders::grid_shaped(g));
            }
            let mut r: usize = 0;
            while r < ROWS
                invariant
                    0 <= r <= ROWS,
                    g == grid@,
                    self.invaders is Some,
                    g == self.invaders->Some_0.grid@,
                    crate::invaders::grid_shaped(g),
                    forall|rr: int, cc: int|
                        0 <= rr < r && #[trigger] live(g, rr, cc) ==> sprite_ref_fits(
                            invader_at(g, rr, cc).pos,
                            invader_at(g, rr, cc).sprite,
                            len as int,
                        ),
                decreases ROWS - r,
            {
                let row = &grid[r];
                let mut c: usize = 0;
                while c < COLS
                    invariant
                        0 <= r < ROWS,
                        0 <= c <= COLS,
                        g == grid@,
                        self.invaders is Some,
                        g == self.invaders->Some_0.grid@,
                        row@ == g[r as int]@,
                        crate::invaders::grid_shaped(g),
                        forall|rr: int, cc: int|
                            (0 <= rr < r || (rr == r && cc < c)) && #[trigger] live(g, rr, cc)
                                ==> sprite_ref_fits(
                                invader_at(g, rr, cc).pos,
                                invader_at(g, rr, cc).sprite,
                                len as int,
                            ),
                    decreases COLS - c,
                {
                    if row[c].is_some() {
                        let inv = row[c].as_ref().unwrap();
                        if !check_blit(inv.pos, inv.sprite.width, inv.sprite.height, inv.sprite.pixels.len(), len) {
                            proof {
                                assert(live(g, r as int, c as int));
                                assert(invader_at(g, r as int, c as int) == *inv);
                                assert(!sprite_ref_fits(inv.pos, inv.sprite, len as int));
                                assert(g == self.invaders->Some_0.grid@);
                                assert(live(self.invaders->Some_0.grid@, r as int, c as int));
                            }
                            return false;
                        }
                    }
                    c = c + 1;
                }
                r = r + 1;
            }
        }
        let mut i: usize = 0;
        while i < self.shields.len()
            invariant
                0 <= i <= self.shields@.len(),
                forall|j: int|
                    0 <= j < i ==> blit_fits(
                        #[trigger] self.shields@[j].pos,
                        self.shields@[j].sprite.width,
                        self.shields@[j].sprite.height,
                        self.shields@[j].sprite.pixels@.len() as int,
                        len as int,
                    ),
            decreases self.shields@.len() - i,
        {
            let s = &self.shields[i];
            if !check_blit(s.pos, s.sprite.width, s.sprite.height, s.sprite.pixels.len(), len) {
                return false;
            }
            i = i + 1;
        }
        if self.player.is_some() {
            let p = self.player.as_ref().unwrap();
            if !check_blit(p.pos, p.sprite.width, p.sprite.height, p.sprite.pixels.len(), len) {
                return false;
            }
        }
        if self.bullet.is_some() {
            let b = self.bullet.as_ref().unwrap();
            if !check_blit(b.pos, b.sprite.width, b.sprite.height, b.sprite.pixels.len(), len) {
                return false;
            }
        }
        let mut i: usize = 0;
        while i < self.lasers.len()
            invariant
                0 <= i <= self.lasers@.len(),
                forall|j: int| 0 <= j < i ==> sprite_ref_fits(#[trigger] self.lasers@[j].pos, self.lasers@[j].sprite, len as int),
            decreases self.lasers@.len() - i,
        {
            let l = &self.lasers[i];
            if !check_blit(l.pos, l.sprite.width, l.sprite.height, l.sprite.pixels.len(), len) {
                return false;
            }
            i = i + 1;
        }
        true
    }
}

/// The cell `k` of the grid in row-major order is at row `k / COLS` and column `k % COLS`.
proof fn lemma_cell_index(r: int, c: int)
    requires
        0 <= r,
        0 <= c < COLS,
    ensures
        (r * COLS + c) / (COLS as int) == r,
        (r * COLS + c) % (COLS as int) == c,
{
    vstd::arithmetic::div_mod::lemma_fundamental_div_mod_converse(r * COLS + c, COLS as int, r, c);
}

impl World {
    /// Draw the internal state to the screen: clear it, then blit the invaders row by row, the
    /// shields, the player, the bullet and the lasers. The picture is then kept as the
    /// collision mask.
    pub fn draw(&mut self, screen: &mut [u8])
        requires
            old(self).wf(),
            draw_fits(&*old(self), old(screen)@.len() as int),
        ensures
            final(self).wf(),
            final(screen)@ == drawn(&*old(self), old(screen)@.len() as int),
            final(self).collision.pixel_mask@ == final(screen)@,
            final(self).collision.bullet_details == old(self).collision.bullet_details,
            final(self).collision.laser_details == old(self).collision.laser_details,
            final(self).invaders == old(self).invaders,
            final(self).lasers == old(self).lasers,
            final(self).shields == old(self).shields,
            final(self).player == old(self).player,
            final(self).bullet == old(self).bullet,
            final(self).score == old(self).score,
            final(self).assets == old(self).assets,
            final(self).dt == old(self).dt,
            final(self).gameover == old(self).gameover,
            final(self).prng == old(self).prng,
            final(self).debug == old(self).debug,
    {
        let ghost w0 = *self;
        let ghost len = screen@.len() as int;
        // Clear the screen
        clear(screen);
        proof {
            assert(screen@ =~= cleared_screen(len));
        }

        // Draw the invaders
        if self.invaders.is_some() {
            let grid = &self.invaders.as_ref().unwrap().grid;
            let ghost g = grid@;
            proof {
                assert(crate::world::fleet_ok(&self.invaders->Some_0, self.gameover));
            }
            let mut r: usize = 0;
            while r < ROWS
                invariant
                    0 <= r <= ROWS,
                    g == grid@,
                    crate::invaders::grid_shaped(g),
                    draw_fits(&w0, len),
                    w0.invaders is Some,
                    g == w0.invaders->Some_0.grid@,
                    screen@.len() == len,
                    screen@ == blit_invaders(cleared_screen(len), g, r * COLS),
                decreases ROWS - r,
            {
                let row = &grid[r];
                let mut c: usize = 0;
                while c < COLS
                    invariant
                        0 <= r < ROWS,
                        0 <= c <= COLS,
                        g == grid@,
                        row@ == g[r as int]@,
                        crate::invaders::grid_shaped(g),
                        draw_fits(&w0, len),
                        w0.invaders is Some,
                        g == w0.invaders->Some_0.grid@,
                        screen@.len() == len,
                        screen@ == blit_invaders(cleared_screen(len), g, r * COLS + c),
                    decreases COLS - c,
                {
                    proof {
                        lemma_cell_index(r as int, c as int);
                    }
                    if row[c].is_some() {
                        let inv = row[c].as_ref().unwrap();
                        proof {
                            assert(live(g, r as int, c as int));
                            assert(invader_at(g, r as int, c as int) == *inv);
                        }
                        blit(screen, &inv.pos, &inv.sprite);
                    }
                    c = c + 1;
                }
                r = r + 1;
            }
        }
        let ghost s1 = screen@;

        // Draw the shields
        let mut i: usize = 0;
        while i < self.shields.len()
            invariant
                0 <= i <= self.shields@.len(),
                self.shields == w0.shields,
                draw_fits(&w0, len),
                screen@.len() == len,
                screen@ == blit_shields(s1, w0.shields@, i as int),
            decreases self.shields@.len() - i,
        {
            let s = &self.shields[i];
            proof {
                assert(blit_fits(s.pos, s.sprite.width, s.sprite.height, s.sprite.pixels@.len() as int, len));
            }
            blit(screen, &s.pos, &s.sprite);
            i = i + 1;
        }

        // Draw the player
        if self.player.is_some() {
            let player = self.player.as_ref().unwrap();
            blit(screen, &player.pos, &player.sprite);
        }

        // Draw the bullet
        if self.bullet.is_some() {
            let bullet = self.bullet.as_ref().unwrap();
            blit(screen, &bullet.pos, &bullet.sprite);
        }
        let ghost s4 = screen@;

        // Draw lasers
        let mut i: usize = 0;
        while i < self.lasers.len()
            invariant
                0 <= i <= self.lasers@.len(),
                self.lasers == w0.lasers,
                draw_fits(&w0, len),
                screen@.len() == len,
                screen@ == blit_lasers(s4, w0.lasers@, i as int),
            decreases self.lasers@.len() - i,
        {
            let l = &self.lasers[i];
            proof {
                assert(sprite_ref_fits(l.pos, l.sprite, len));
            }
            blit(screen, &l.pos, &l.sprite);
            i = i + 1;
        }
        proof {
            assert(screen@ == drawn(&w0, len));
        }

        // Copy screen to the backbuffer for particle simulation
        let n = screen.len();
        let mut k: usize = 0;
        while k < n
            invariant
                0 <= k <= n,
                n == screen@.len(),
                n == len,
                self.collision.pixel_mask@.len() == n,
                forall|j: int| 0 <= j < k ==> #[trigger] self.collision.pixel_mask@[j] == screen@[j],
                self.collision.bullet_details == w0.collision.bullet_details,
                self.collision.laser_details == w0.collision.laser_details,
                self.invaders == w0.invaders,
                self.lasers == w0.lasers,
                self.shields == w0.shields,
                self.player == w0.player,
                self.bullet == w0.bullet,
                self.score == w0.score,
                self.assets == w0.assets,
                self.dt == w0.dt,
                self.gameover == w0.gameover,
                self.prng == w0.prng,
                self.debug == w0.debug,
            decreases n - k,
        {
            self.collision.pixel_mask.set(k, screen[k]);
            k = k + 1;
        }
        proof {
            assert(self.collision.pixel_mask@ =~= screen@);
        }
    }
}

/// Drawing twice without an update between is a no-op: a world that differs from another only
/// in the contents of its collision mask draws the same picture, on the same screens.
pub proof fn lemma_draw_again(w0: &World, w1: &World, len: int)
    requires
        w1.invaders == w0.invaders,
        w1.shields == w0.shields,
        w1.player == w0.player,
        w1.bullet == w0.bullet,
        w1.lasers == w0.lasers,
        w1.collision.pixel_mask@.len() == w0.collision.pixel_mask@.len(),
    ensures
        drawn(w1, len) == drawn(w0, len),
        draw_fits(w1, len) == draw_fits(w0, len),
{
}

/// Blitting invaders keeps the screen's length.
proof fn lemma_blit_invaders_len(screen: Seq<u8>, grid: Seq<Vec<Option<Invader>>>, n: int)
    ensures
        blit_invaders(screen, grid, n).len() == screen.len(),
    decreases n,
{
    if n > 0 {
        lemma_blit_invaders_len(screen, grid, n - 1);
    }
}

/// Blitting shields keeps the screen's length.
proof fn lemma_blit_shields_len(screen: Seq<u8>, shields: Seq<Shield>, n: int)
    ensures
        blit_shields(screen, shields, n).len() == screen.len(),
    decreases n,
{
    if n > 0 {
        lemma_blit_shields_len(screen, shields, n - 1);
    }
}

/// A byte in row `y`, at offset `u` within the row, of a sprite blitted with rows of `w4` bytes
/// from `base` is the sprite's, when rows fit within a screen row.
proof fn lemma_blit_byte_inside(screen: Seq<u8>, base: int, w4: int, h: int, src: Seq<u8>, y: int, u: int)
    requires
        base >= 0,
        0 <= y < h,
        0 <= u < w4,
        w4 <= screen_stride(),
    ensures
        blit_byte(screen, base, w4, h, src, base + y * screen_stride() + u) == src[y * w4 + u],
{
    vstd::arithmetic::div_mod::lemma_fundamental_div_mod_converse(y * screen_stride() + u, screen_stride(), y, u);
}

/// Byte `k` of a screen lies in row `yy` of a sprite blitted with rows of `w4` bytes from `base`.
pub open spec fn in_row(base: int, w4: int, yy: int, k: int) -> bool {
    base + yy * screen_stride() <= k < base + yy * screen_stride() + w4
}

/// A byte that lies in no row of a blitted sprite keeps its value.
proof fn lemma_blit_byte_outside(screen: Seq<u8>, base: int, w4: int, h: int, src: Seq<u8>, k: int)
    requires
        forall|yy: int| 0 <= yy < h ==> !#[trigger] in_row(base, w4, yy, k),
    ensures
        blit_byte(screen, base, w4, h, src, k) == screen[k],
{
    let t = k - base;
    let s = screen_stride();
    if 0 <= t && h > 0 {
        vstd::arithmetic::div_mod::lemma_fundamental_div_mod(t, s);
        let y = if t / s < h - 1 {
            t / s
        } else {
            h - 1
        };
        assert(0 <= t / s);
        assert(y * s <= t) by (nonlinear_arith)
            requires
                0 <= y <= t / s,
                t == s * (t / s) + t % s,
                t % s >= 0,
                s > 0,
        ;
        assert(!in_row(base, w4, y, k));
    }
}

/// Two sprites, each within the width of the screen, whose rectangles do not overlap.
pub open spec fn apart(p: Point, w: int, h: int, q: Point, v: int, g: int) -> bool {
    ||| p.x + w <= q.x
    ||| q.x + v <= p.x
    ||| p.y + h <= q.y
    ||| q.y + g <= p.y
}

/// A byte of a sprite within the width of the screen lies in no row of another such sprite apart
/// from it.
proof fn lemma_apart_bytes(p: Point, w: int, h: int, q: Point, v: int, g: int, y: int, k: int, yy: int)
    requires
        apart(p, w, h, q, v, g),
        p.x + w <= SCREEN_WIDTH,
        q.x + v <= SCREEN_WIDTH,
        0 <= y < h,
        0 <= k < w * 4,
        0 <= yy < g,
    ensures
        !(q.x * 4 + q.y * screen_stride() + yy * screen_stride() <= p.x * 4 + (p.y + y) * screen_stride() + k
            < q.x * 4 + q.y * screen_stride() + yy * screen_stride() + v * 4),
{
    let s = screen_stride();
    let idx = p.x * 4 + (p.y + y) * s + k;
    let lo = q.x * 4 + q.y * s + yy * s;
    if lo <= idx < lo + v * 4 {
        let c1 = p.x * 4 + k;
        let c2 = idx - (q.y + yy) * s;
        assert(idx == (p.y + y) * s + c1);
        assert(idx == (q.y + yy) * s + c2);
        vstd::arithmetic::div_mod::lemma_fundamental_div_mod_converse(idx, s, p.y + y, c1);
        vstd::arithmetic::div_mod::lemma_fundamental_div_mod_converse(idx, s, q.y + yy, c2);
    }
}

/// Blitting lasers leaves alone every byte of a sprite within the width of the screen that no
/// laser overlaps.
proof fn lemma_lasers_leave_apart(screen: Seq<u8>, lasers: Seq<Laser>, n: int, p: Point, w: int, h: int, y: int, k: int)
    requires
        0 <= n <= lasers.len(),
        p.x + w <= SCREEN_WIDTH,
        0 <= y < h,
        0 <= k < w * 4,
        forall|i: int|
            0 <= i < lasers.len() ==> (#[trigger] lasers[i]).pos.x + lasers[i].sprite.width <= SCREEN_WIDTH
                && apart(p, w, h, lasers[i].pos, lasers[i].sprite.width as int, lasers[i].sprite.height as int),
        p.x * 4 + (p.y + y) * screen_stride() + k < screen.len(),
    ensures
        blit_lasers(screen, lasers, n).len() == screen.len(),
        blit_lasers(screen, lasers, n)[p.x * 4 + (p.y + y) * screen_stride() + k] == screen[p.x * 4 + (p.y
            + y) * screen_stride() + k],
    decreases n,
{
    if n > 0 {
        lemma_lasers_leave_apart(screen, lasers, n - 1, p, w, h, y, k);
        let l = lasers[n - 1];
        let idx = p.x * 4 + (p.y + y) * screen_stride() + k;
        let prev = blit_lasers(screen, lasers, n - 1);
        let base = l.pos.x * 4 + l.pos.y * screen_stride();
        assert forall|yy: int| 0 <= yy < l.sprite.height implies !#[trigger] in_row(base, l.sprite.width * 4, yy, idx) by {
            lemma_apart_bytes(p, w, h, l.pos, l.sprite.width as int, l.sprite.height as int, y, k, yy);
        }
        lemma_blit_byte_outside(prev, base, l.sprite.width * 4, l.sprite.height as int, l.sprite.pixels@, idx);
    }
}

/// The bullet shows on the drawn screen where no laser overlaps it: each byte of each of its rows
/// is the bullet sprite's, for a bullet and lasers within the width of the screen.
pub proof fn lemma_drawn_shows_bullet(w: &World, len: int, y: int, k: int)
    requires
        draw_fits(w, len),
        w.bullet is Some,
        w.bullet->Some_0.pos.x + w.bullet->Some_0.sprite.width <= SCREEN_WIDTH,
        forall|i: int|
            0 <= i < w.lasers@.len() ==> (#[trigger] w.lasers@[i]).pos.x + w.lasers@[i].sprite.width
                <= SCREEN_WIDTH && apart(
                w.bullet->Some_0.pos,
                w.bullet->Some_0.sprite.width as int,
                w.bullet->Some_0.sprite.height as int,
                w.lasers@[i].pos,
                w.lasers@[i].sprite.width as int,
                w.lasers@[i].sprite.height as int,
            ),
        0 <= y < w.bullet->Some_0.sprite.height,
        0 <= k < w.bullet->Some_0.sprite.width * 4,
    ensures
        drawn(w, len)[w.bullet->Some_0.pos.x * 4 + (w.bullet->Some_0.pos.y + y) * (SCREEN_WIDTH * 4) + k]
            == w.bullet->Some_0.sprite.pixels@[y * (w.bullet->Some_0.sprite.width * 4) + k],
{
    let b = w.bullet->Some_0;
    let s0 = cleared_screen(len);
    let s1 = if w.invaders is Some {
        blit_invaders(s0, w.invaders->Some_0.grid@, ROWS * COLS)
    } else {
        s0
    };
    let s2 = blit_shields(s1, w.shields@, w.shields@.len() as int);
    let s3 = if w.player is Some {
        blit_ref(s2, w.player->Some_0.pos, w.player->Some_0.sprite)
    } else {
        s2
    };
    let s4 = blit_ref(s3, b.pos, b.sprite);
    lemma_blit_invaders_len(s0, if w.invaders is Some { w.invaders->Some_0.grid@ } else { Seq::empty() }, ROWS * COLS);
    lemma_blit_shields_len(s1, w.shields@, w.shields@.len() as int);
    let idx = b.pos.x * 4 + (b.pos.y + y) * screen_stride() + k;
    assert(idx < len) by {
        assert((b.pos.y + y) * screen_stride() <= (b.pos.y + b.sprite.height - 1) * screen_stride());
    }
    assert(s4[idx] == blit_byte(s3, b.pos.x * 4 + b.pos.y * screen_stride(), b.sprite.width * 4, b.sprite.height as int, b.sprite.pixels@, idx));
    lemma_blit_byte_inside(s3, b.pos.x * 4 + b.pos.y * screen_stride(), b.sprite.width * 4, b.sprite.height as int, b.sprite.pixels@, y, k);
    lemma_lasers_leave_apart(s4, w.lasers@, w.lasers@.len() as int, b.pos, b.sprite.width as int, b.sprite.height as int, y, k);
}

} // verus!
