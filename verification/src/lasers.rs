//! The lasers' pass of an update: every laser flies down, and is destroyed when it leaves the
//! field or hits the player, the bullet or a shield.

use crate::collision::{shield_hit, sprite_ref_rect, BulletDetail, LaserDetail};
use crate::geo::{rects_intersect, Point, Rect};
use crate::invaders::{advance_frames, elapsed_frames, leftover_nanos, Bullet, Laser, Player, Shield};
use crate::loader::{frame_key, Assets};
use crate::sprites::Frame;
use crate::timing::{max_duration_nanos, NANOS_PER_SEC};
use crate::world::{animated_sprite, mover_ok, subsec, World, PLAYER_START_Y};
use arrayvec::ArrayVec;
use vstd::prelude::*;

verus! {

#[verifier::external_type_specification]
#[verifier::external_body]
#[verifier::reject_recursive_types(T)]
pub struct ExArrayVec<T, const CAP: usize>(ArrayVec<T, CAP>);

/// The indices held by a list of lasers to destroy, in the order in which they were pushed.
pub uninterp spec fn doomed(list: ArrayVec<usize, 3>) -> Seq<usize>;

/// Creates an empty list with `ArrayVec::new`.
#[verifier::external_body]
fn doomed_new() -> (list: ArrayVec<usize, 3>)
    ensures
        doomed(list) == Seq::<usize>::empty(),
{
    ArrayVec::new()
}

/// Appends `i` with `ArrayVec::push`, which panics on a full list; the list holds three.
#[verifier::external_body]
fn doomed_push(list: &mut ArrayVec<usize, 3>, i: usize)
    requires
        doomed(*old(list)).len() < 3,
    ensures
        doomed(*final(list)) == doomed(*old(list)).push(i),
{
    list.push(i)
}

/// The number of indices in the list, from `ArrayVec::len`.
#[verifier::external_body]
fn doomed_len(list: &ArrayVec<usize, 3>) -> (n: usize)
    ensures
        n == doomed(*list).len(),
{
    list.len()
}

/// The index at position `k` of the list, read through the slice that `ArrayVec` derefs to.
#[verifier::external_body]
fn doomed_get(list: &ArrayVec<usize, 3>, k: usize) -> (i: usize)
    requires
        k < doomed(*list).len(),
    ensures
        i == doomed(*list)[k as int],
{
    list[k]
}

/// The lasers of `s` whose indices are not in `d`, in order.
pub open spec fn keep(s: Seq<Laser>, d: Set<int>) -> Seq<Laser>
    decreases s.len(),
{
    if s.len() == 0 {
        s
    } else {
        let prev = keep(s.drop_last(), d);
        if d.contains(s.len() - 1) {
            prev
        } else {
            prev.push(s.last())
        }
    }
}

/// Keeping lasers depends only on the indices within the sequence.
proof fn lemma_keep_in_range(s: Seq<Laser>, d1: Set<int>, d2: Set<int>)
    requires
        forall|x: int| 0 <= x < s.len() ==> (d1.contains(x) <==> d2.contains(x)),
    ensures
        keep(s, d1) == keep(s, d2),
    decreases s.len(),
{
    if s.len() > 0 {
        lemma_keep_in_range(s.drop_last(), d1, d2);
    }
}

/// With no index to drop within the sequence, every laser is kept.
proof fn lemma_keep_all(s: Seq<Laser>, d: Set<int>)
    requires
        forall|x: int| 0 <= x < s.len() ==> !d.contains(x),
    ensures
        keep(s, d) == s,
    decreases s.len(),
{
    if s.len() > 0 {
        lemma_keep_all(s.drop_last(), d);
        assert(keep(s.drop_last(), d).push(s.last()) =~= s);
    }
}

/// When no index up to `j` is dropped, the first `j + 1` lasers are all kept.
proof fn lemma_keep_len(s: Seq<Laser>, d: Set<int>, j: int)
    requires
        0 <= j < s.len(),
        forall|x: int| 0 <= x <= j ==> !d.contains(x),
    ensures
        keep(s, d).len() > j,
    decreases s.len(),
{
    if j == s.len() - 1 {
        lemma_keep_all(s.drop_last(), d);
    } else {
        lemma_keep_len(s.drop_last(), d, j);
    }
}

/// Removing the laser at index `j`, below every dropped index, from the kept lasers is the same
/// as dropping `j` too.
proof fn lemma_keep_remove(s: Seq<Laser>, d: Set<int>, j: int)
    requires
        0 <= j < s.len(),
        forall|x: int| 0 <= x < s.len() && #[trigger] d.contains(x) ==> x > j,
    ensures
        keep(s, d).len() > j,
        keep(s, d).remove(j) == keep(s, d.insert(j)),
    decreases s.len(),
{
    lemma_keep_len(s, d, j);
    let t = s.drop_last();
    if j == s.len() - 1 {
        lemma_keep_all(t, d);
        lemma_keep_all(t, d.insert(j));
        assert(keep(s, d) == t.push(s.last()));
        assert(t.push(s.last()).remove(j) =~= t);
    } else {
        lemma_keep_remove(t, d, j);
        lemma_keep_len(t, d, j);
        let k = keep(t, d);
        if !d.contains(s.len() - 1) {
            assert(k.push(s.last()).remove(j) =~= k.remove(j).push(s.last()));
        }
    }
}

/// How far a laser falls in `dt` nanoseconds: two pixels per whole frame.
pub open spec fn laser_velocity(l: Laser, dt: u128) -> int {
    elapsed_frames(l.dt, subsec(dt)) * 2
}

/// The laser `l` after it fell for `dt` nanoseconds: lower by its velocity, animated, with the
/// whole frames taken out of its clock.
pub open spec fn flown_laser(assets: &Assets, l: Laser, dt: u128) -> Laser {
    Laser {
        sprite: animated_sprite(assets, l.sprite, dt),
        pos: Point { x: l.pos.x, y: (l.pos.y + laser_velocity(l, dt)) as usize },
        dt: leftover_nanos(l.dt, subsec(dt)) as usize,
    }
}

/// The shields that a rectangle overlaps, as laser collision details.
pub open spec fn shield_details(r: Rect, shields: Seq<Shield>) -> Set<LaserDetail> {
    Set::new(|d: LaserDetail| d is Shield && shield_hit(r, shields, d->Shield_0 as int))
}

/// What the lasers' pass has left so far: the player, the bullet, whether the game is over, the
/// lasers still flying, the laser and bullet collision details, and the laser that hit the
/// player, with the player it hit.
pub type LaserPass = (
    Option<Player>,
    Option<Bullet>,
    bool,
    Seq<Laser>,
    Set<LaserDetail>,
    Set<BulletDetail>,
    Option<(Laser, Player)>,
);

/// One laser's turn in the pass.
///
/// A laser at or below the player's row is destroyed. Otherwise it falls; while the player
/// lives, the laser kills the player, or else destroys the bullet with itself, or else is
/// destroyed by the shields it overlaps.
pub open spec fn laser_step(assets: &Assets, shields: Seq<Shield>, s: LaserPass, l: Laser, dt: u128) -> LaserPass {
    let (player, bullet, gameover, flying, ld, bd, hit) = s;
    let f = flown_laser(assets, l, dt);
    let fr = sprite_ref_rect(f.pos, f.sprite);
    let p = player->Some_0;
    let b = bullet->Some_0;
    if l.pos.y >= PLAYER_START_Y {
        s
    } else if player is None {
        (player, bullet, gameover, flying.push(f), ld, bd, hit)
    } else if rects_intersect(fr, sprite_ref_rect(p.pos, p.sprite)) {
        (None, bullet, true, flying, ld.insert(LaserDetail::Player), bd, Some((f, p)))
    } else if bullet is Some && rects_intersect(sprite_ref_rect(b.pos, b.sprite), fr) {
        (player, None, gameover, flying, ld, bd.insert(BulletDetail::Laser), hit)
    } else if exists|k: int| shield_hit(fr, shields, k) {
        (player, bullet, gameover, flying, ld.union(shield_details(fr, shields)), bd, hit)
    } else {
        (player, bullet, gameover, flying.push(f), ld, bd, hit)
    }
}

/// The pass over `lasers`, in order, from the state `start`.
pub open spec fn laser_pass(assets: &Assets, shields: Seq<Shield>, lasers: Seq<Laser>, dt: u128, start: LaserPass) -> LaserPass
    decreases lasers.len(),
{
    if lasers.len() == 0 {
        start
    } else {
        laser_step(assets, shields, laser_pass(assets, shields, lasers.drop_last(), dt, start), lasers.last(), dt)
    }
}

/// The state of a world at the start of its lasers' pass.
pub open spec fn pass_start(w: &World) -> LaserPass {
    (
        w.player,
        w.bullet,
        w.gameover,
        Seq::empty(),
        w.collision.laser_set(),
        w.collision.bullet_set(),
        None,
    )
}

/// `w1` is `w0` after the lasers' phase of an update of `dt` nanoseconds, which returned `hit`:
/// the lasers' pass (see `laser_step`) decides the player, the bullet, the end of the game, the
/// lasers left and the collision details.
pub open spec fn lasers_stepped(w0: &World, w1: &World, hit: Option<(Laser, Player)>, dt: u128) -> bool {
    let p = laser_pass(&w0.assets, w0.shields@, w0.lasers@, dt, pass_start(w0));
    &&& w1.player == p.0
    &&& w1.bullet == p.1
    &&& w1.gameover == p.2
    &&& w1.lasers@ == p.3
    &&& w1.collision.laser_set() == p.4
    &&& w1.collision.bullet_set() == p.5
    &&& hit == p.6
    &&& w1.invaders == w0.invaders
    &&& w1.shields == w0.shields
    &&& w1.score == w0.score
    &&& w1.dt == w0.dt
    &&& w1.assets == w0.assets
    &&& w1.debug == w0.debug
    &&& w1.prng == w0.prng
    &&& w1.collision.pixel_mask == w0.collision.pixel_mask
}

/// The indices are increasing and below `n`.
pub open spec fn increasing_below(d: Seq<usize>, n: int) -> bool {
    &&& forall|a: int, b: int| 0 <= a < b < d.len() ==> d[a] < d[b]
    &&& forall|a: int| 0 <= a < d.len() ==> d[a] < n
}

/// The indices of a list, as a set.
pub open spec fn index_set(d: Seq<usize>) -> Set<int> {
    Set::new(|x: int| exists|a: int| 0 <= a < d.len() && d[a] as int == x)
}

impl World {
    /// One laser's turn in the lasers' pass; `flying` and `h` stand for what the pass has kept so
    /// far and the hit it recorded.
    ///
    /// Returns whether the laser is to be destroyed, and, when it killed the player, the laser
    /// and the player.
    fn step_laser(
        &mut self,
        i: usize,
        dt: u128,
        Ghost(flying): Ghost<Seq<Laser>>,
        Ghost(h): Ghost<Option<(Laser, Player)>>,
    ) -> (res: (bool, Option<(Laser, Player)>))
        requires
            old(self).wf(),
            i < old(self).lasers@.len(),
            dt <= max_duration_nanos(),
        ensures
            final(self).wf(),
            final(self).lasers@.len() == old(self).lasers@.len(),
            forall|j: int|
                0 <= j < old(self).lasers@.len() && j != i ==> #[trigger] final(self).lasers@[j]
                    == old(self).lasers@[j],
            final(self).invaders == old(self).invaders,
            final(self).shields == old(self).shields,
            final(self).score == old(self).score,
            final(self).dt == old(self).dt,
            final(self).assets == old(self).assets,
            final(self).debug == old(self).debug,
            final(self).prng == old(self).prng,
            final(self).collision.pixel_mask == old(self).collision.pixel_mask,
            ({
                let s1 = laser_step(
                    &old(self).assets,
                    old(self).shields@,
                    (
                        old(self).player,
                        old(self).bullet,
                        old(self).gameover,
                        flying,
                        old(self).collision.laser_set(),
                        old(self).collision.bullet_set(),
                        h,
                    ),
                    old(self).lasers@[i as int],
                    dt,
                );
                &&& s1.0 == final(self).player
                &&& s1.1 == final(self).bullet
                &&& s1.2 == final(self).gameover
                &&& s1.3 == if res.0 {
                    flying
                } else {
                    flying.push(final(self).lasers@[i as int])
                }
                &&& s1.4 == final(self).collision.laser_set()
                &&& s1.5 == final(self).collision.bullet_set()
                &&& s1.6 == if res.1 is Some {
                    res.1
                } else {
                    h
                }
            }),
    {
        let ghost w0 = *self;
        let ghost l0 = self.lasers@[i as int];
        proof {
            crate::world::lemma_frames_per_update(l0.dt, subsec(dt));
            assert(mover_ok(self.lasers@[i as int].pos, self.lasers@[i as int].sprite, self.lasers@[i as int].dt));
            assert(self.assets.spec_sprites().contains_key(frame_key(l0.sprite.frame)));
            assert(self.assets.spec_sprites().contains_key(frame_key(crate::sprites::next_frame(l0.sprite.frame))));
            assert(crate::collision::shields_fit(self.shields@)) by {
                assert forall|k: int| 0 <= k < 4 implies crate::collision::rect_fits(
                    #[trigger] self.shields@[k].pos,
                    self.shields@[k].sprite.width,
                    self.shields@[k].sprite.height,
                ) by {
                    assert(crate::world::shield_ok(self.shields@[k]));
                }
            }
        }
        let laser = &mut self.lasers[i];
        let frames = advance_frames(&mut laser.dt, (dt % NANOS_PER_SEC) as u32);
        let velocity = frames * 2;
        let mut destroyed = false;
        let mut hit: Option<(Laser, Player)> = None;
        if laser.pos.y < PLAYER_START_Y {
            laser.pos.y = laser.pos.y + velocity;
            laser.sprite.animate_nanos(&self.assets, dt);
            proof {
                assert(*laser == flown_laser(&w0.assets, l0, dt));
            }
            if self.player.is_some() {
                if self.collision.laser_to_player(laser, self.player.as_ref().unwrap()) {
                    // One of the end scenarios
                    self.gameover = true;
                    let player = self.player.take().unwrap();
                    hit = Some((Laser { sprite: laser.sprite.share(), pos: laser.pos, dt: laser.dt }, player));
                    destroyed = true;
                } else if self.collision.laser_to_bullet(laser, &mut self.bullet) {
                    // Laser and bullet obliterate each other
                    destroyed = true;
                } else if self.collision.laser_to_shield(laser, self.shields.as_slice()) {
                    destroyed = true;
                }
            }
        } else {
            destroyed = true;
        }
        proof {
            let f = flown_laser(&w0.assets, l0, dt);
            let fr = sprite_ref_rect(f.pos, f.sprite);
            if l0.pos.y < PLAYER_START_Y && w0.player is Some {
                assert(self.collision.laser_set() =~= laser_step(
                    &w0.assets,
                    w0.shields@,
                    (w0.player, w0.bullet, w0.gameover, flying, w0.collision.laser_set(), w0.collision.bullet_set(), h),
                    l0,
                    dt,
                ).4);
            }
        }
        (destroyed, hit)
    }
}

impl World {
    /// Handle the lasers' movement and collisions.
    ///
    /// Every laser takes its turn in order (see `laser_step`); the lasers to destroy are then
    /// removed, the last first. Returns the laser that killed the player, with the player.
    pub fn step_lasers(&mut self, dt: u128) -> (hit: Option<(Laser, Player)>)
        requires
            old(self).wf(),
            dt <= max_duration_nanos(),
        ensures
            final(self).wf(),
            lasers_stepped(&*old(self), &*final(self), hit, dt),
    {
        let ghost w0 = *self;
        let mut destroy = doomed_new();
        let mut hit: Option<(Laser, Player)> = None;
        let n = self.lasers.len();
        let mut i: usize = 0;
        while i < n
            invariant
                self.wf(),
                n == self.lasers@.len(),
                n == w0.lasers@.len(),
                0 <= i <= n,
                forall|j: int| i <= j < n ==> #[trigger] self.lasers@[j] == w0.lasers@[j],
                increasing_below(doomed(destroy), i as int),
                doomed(destroy).len() <= i,
                (
                    self.player,
                    self.bullet,
                    self.gameover,
                    keep(self.lasers@.take(i as int), index_set(doomed(destroy))),
                    self.collision.laser_set(),
                    self.collision.bullet_set(),
                    hit,
                ) == laser_pass(&w0.assets, w0.shields@, w0.lasers@.take(i as int), dt, pass_start(&w0)),
                self.invaders == w0.invaders,
                self.shields == w0.shields,
                self.score == w0.score,
                self.dt == w0.dt,
                self.assets == w0.assets,
                self.debug == w0.debug,
                self.prng == w0.prng,
                self.collision.pixel_mask == w0.collision.pixel_mask,
                dt <= max_duration_nanos(),
            decreases n - i,
        {
            let ghost before = *self;
            let ghost d0 = doomed(destroy);
            let ghost kept = keep(self.lasers@.take(i as int), index_set(d0));
            let (destroyed, h) = self.step_laser(i, dt, Ghost(kept), Ghost(hit));
            if h.is_some() {
                hit = h;
            }
            if destroyed {
                doomed_push(&mut destroy, i);
            }
            proof {
                let d1 = doomed(destroy);
                let t = self.lasers@.take(i as int);
                assert(self.lasers@.take(i + 1) =~= t.push(self.lasers@[i as int]));
                assert(t =~= before.lasers@.take(i as int));
                assert(w0.lasers@.take(i + 1).drop_last() =~= w0.lasers@.take(i as int));
                assert(w0.lasers@.take(i + 1).last() == w0.lasers@[i as int]);
                assert forall|x: int| 0 <= x < t.len() implies (index_set(d0).contains(x) <==> index_set(d1).contains(x)) by {
                    if index_set(d1).contains(x) {
                        let a = choose|a: int| 0 <= a < d1.len() && d1[a] as int == x;
                        if a < d0.len() {
                            assert(d0[a] == d1[a]);
                        }
                    }
                    if index_set(d0).contains(x) {
                        let a = choose|a: int| 0 <= a < d0.len() && d0[a] as int == x;
                        assert(d1[a] == d0[a]);
                    }
                }
                lemma_keep_in_range(t, index_set(d0), index_set(d1));
                assert(index_set(d1).contains(i as int) == destroyed) by {
                    if destroyed {
                        assert(d1[d0.len() as int] == i);
                    } else {
                        assert(d1 == d0);
                        if index_set(d1).contains(i as int) {
                            let a = choose|a: int| 0 <= a < d1.len() && d1[a] as int == i;
                        }
                    }
                }
                let s_new = self.lasers@.take(i + 1);
                assert(s_new.drop_last() =~= t);
                assert(s_new.last() == self.lasers@[i as int]);
                assert(keep(t, index_set(d1)) == kept);
                assert(keep(s_new, index_set(d1)) == if destroyed {
                    kept
                } else {
                    kept.push(self.lasers@[i as int])
                });
                assert(before.lasers@[i as int] == w0.lasers@[i as int]);
                let prev = laser_pass(&w0.assets, w0.shields@, w0.lasers@.take(i as int), dt, pass_start(&w0));
                assert(laser_pass(&w0.assets, w0.shields@, w0.lasers@.take(i + 1), dt, pass_start(&w0))
                    == laser_step(&w0.assets, w0.shields@, prev, w0.lasers@[i as int], dt));
            }
            i = i + 1;
        }
        let ghost full = self.lasers@;
        let ghost d = doomed(destroy);
        let ghost w1 = *self;
        proof {
            assert(full.take(n as int) =~= full);
            assert(w0.lasers@.take(n as int) =~= w0.lasers@);
            lemma_keep_all(full, index_set(d.subrange(d.len() as int, d.len() as int)));
        }

        // Destroy dead lasers
        let m = doomed_len(&destroy);
        let mut k = m;
        while k > 0
            invariant
                0 <= k <= m,
                m == d.len(),
                d == doomed(destroy),
                increasing_below(d, n as int),
                n == full.len(),
                self.lasers@ == keep(full, index_set(d.subrange(k as int, m as int))),
                forall|j: int| 0 <= j < self.lasers@.len() ==> mover_ok(
                    #[trigger] self.lasers@[j].pos,
                    self.lasers@[j].sprite,
                    self.lasers@[j].dt,
                ),
                self.lasers@.len() <= 3,
                w1.wf(),
                w1.lasers@ == full,
                self.invaders == w1.invaders,
                self.shields == w1.shields,
                self.player == w1.player,
                self.bullet == w1.bullet,
                self.collision == w1.collision,
                self.score == w1.score,
                self.assets == w1.assets,
                self.dt == w1.dt,
                self.gameover == w1.gameover,
                self.prng == w1.prng,
                self.debug == w1.debug,
            decreases k,
        {
            let j = doomed_get(&destroy, k - 1);
            proof {
                let s = index_set(d.subrange(k as int, m as int));
                let tail = d.subrange(k as int, m as int);
                let wider = d.subrange(k - 1, m as int);
                assert forall|x: int| 0 <= x < full.len() && #[trigger] s.contains(x) implies x > j by {
                    let a = choose|a: int| 0 <= a < tail.len() && tail[a] as int == x;
                    assert(d[k + a] == x);
                }
                lemma_keep_remove(full, s, j as int);
                assert(s.insert(j as int) =~= index_set(wider)) by {
                    assert forall|x: int| s.insert(j as int).contains(x) implies index_set(wider).contains(x) by {
                        if x == j {
                            assert(wider[0] == j);
                        } else {
                            let a = choose|a: int| 0 <= a < tail.len() && tail[a] as int == x;
                            assert(wider[a + 1] == x);
                        }
                    }
                    assert forall|x: int| index_set(wider).contains(x) implies s.insert(j as int).contains(x) by {
                        let a = choose|a: int| 0 <= a < wider.len() && wider[a] as int == x;
                        if a > 0 {
                            assert(tail[a - 1] == x);
                        }
                    }
                }
            }
            let ghost before = self.lasers@;
            self.lasers.remove(j);
            proof {
                assert forall|jj: int| 0 <= jj < self.lasers@.len() implies mover_ok(
                    #[trigger] self.lasers@[jj].pos,
                    self.lasers@[jj].sprite,
                    self.lasers@[jj].dt,
                ) by {
                    if jj < j {
                        assert(self.lasers@[jj] == before[jj]);
                    } else {
                        assert(self.lasers@[jj] == before[jj + 1]);
                    }
                }
            }
            k = k - 1;
        }
        proof {
            assert(d.subrange(0, m as int) =~= d);
            assert(self.lasers@.len() <= 3);
        }
        hit
    }
}

/// The lasers flying after a pass from `start` are those flying at its start, followed, in order,
/// by the flown versions of some of the lasers of the pass, whose indices are returned.
proof fn lemma_pass_flies(
    assets: &Assets,
    shields: Seq<Shield>,
    lasers: Seq<Laser>,
    dt: u128,
    start: LaserPass,
) -> (idx: Seq<int>)
    ensures
        ({
            let f = laser_pass(assets, shields, lasers, dt, start).3;
            &&& f.len() == start.3.len() + idx.len()
            &&& f.subrange(0, start.3.len() as int) == start.3
            &&& forall|a: int, b: int| 0 <= a < b < idx.len() ==> idx[a] < idx[b]
            &&& forall|k: int| 0 <= k < idx.len() ==> 0 <= #[trigger] idx[k] < lasers.len()
            &&& forall|k: int| 0 <= k < idx.len() ==> lasers[#[trigger] idx[k]].pos.y < PLAYER_START_Y
            &&& forall|k: int|
                0 <= k < idx.len() ==> f[start.3.len() + k] == flown_laser(assets, lasers[idx[k]], dt)
        }),
    decreases lasers.len(),
{
    if lasers.len() == 0 {
        assert(start.3.subrange(0, start.3.len() as int) =~= start.3);
        Seq::empty()
    } else {
        let prev_lasers = lasers.drop_last();
        let prev = laser_pass(assets, shields, prev_lasers, dt, start);
        let idx0 = lemma_pass_flies(assets, shields, prev_lasers, dt, start);
        let next = laser_pass(assets, shields, lasers, dt, start);
        assert(next == laser_step(assets, shields, prev, lasers.last(), dt));
        assert forall|k: int| 0 <= k < idx0.len() implies lasers[idx0[k]] == prev_lasers[idx0[k]] by {}
        if next.3 == prev.3 {
            idx0
        } else {
            let n = (lasers.len() - 1) as int;
            let idx = idx0.push(n);
            assert(next.3 == prev.3.push(flown_laser(assets, lasers.last(), dt)));
            assert(next.3.subrange(0, start.3.len() as int) =~= prev.3.subrange(0, start.3.len() as int));
            assert forall|k: int|
                0 <= k < idx.len() implies next.3[start.3.len() + k] == flown_laser(assets, lasers[idx[k]], dt) by {
                if k < idx0.len() {
                    assert(next.3[start.3.len() + k] == prev.3[start.3.len() + k]);
                }
            }
            idx
        }
    }
}

/// The lasers `after` are, in order, those of `before` at the increasing indices `idx`, each
/// lower by two pixels for every whole frame in the time left over on its clock plus the
/// fractional second of `dt`, with the rest of that time on its clock.
pub open spec fn lasers_fell(before: Seq<Laser>, after: Seq<Laser>, idx: Seq<int>, dt: u128) -> bool {
    &&& idx.len() == after.len()
    &&& forall|a: int, b: int| 0 <= a < b < idx.len() ==> idx[a] < idx[b]
    &&& forall|k: int| 0 <= k < idx.len() ==> 0 <= #[trigger] idx[k] < before.len()
    &&& forall|k: int|
        0 <= k < idx.len() ==> {
            let l0 = before[#[trigger] idx[k]];
            let l1 = after[k];
            let n = l0.dt + dt % 1_000_000_000;
            &&& l1.dt == n % 16_666_667
            &&& l1.pos.y == l0.pos.y + 2 * (n / 16_666_667)
            &&& l1.pos.x == l0.pos.x
        }
}

/// Every laser's frame clock keeps what is left over of a frame: the lasers flying after their
/// pass are, in order, some of the lasers flying before it, each fallen by two pixels per whole
/// frame of its clock's time plus the fractional second of `dt` (see `lasers_fell`).
pub proof fn lemma_lasers_keep_leftover_time(
    w0: &World,
    w1: &World,
    hit: Option<(Laser, Player)>,
    dt: u128,
)
    requires
        w0.wf(),
        lasers_stepped(w0, w1, hit, dt),
    ensures
        exists|idx: Seq<int>| #[trigger] lasers_fell(w0.lasers@, w1.lasers@, idx, dt),
{
    let idx = lemma_pass_flies(&w0.assets, w0.shields@, w0.lasers@, dt, pass_start(w0));
    assert forall|k: int| 0 <= k < idx.len() implies {
        let l0 = w0.lasers@[#[trigger] idx[k]];
        let l1 = w1.lasers@[k];
        let n = l0.dt + dt % 1_000_000_000;
        &&& l1.dt == n % 16_666_667
        &&& l1.pos.y == l0.pos.y + 2 * (n / 16_666_667)
        &&& l1.pos.x == l0.pos.x
    } by {
        let l0 = w0.lasers@[idx[k]];
        assert(w1.lasers@[k] == flown_laser(&w0.assets, l0, dt));
        assert(mover_ok(l0.pos, l0.sprite, l0.dt));
        let n = l0.dt + dt % 1_000_000_000;
        assert(n / 16_666_667 <= 61) by {
            vstd::arithmetic::div_mod::lemma_div_is_ordered(n, 1_016_666_666, 16_666_667);
        }
    }
    assert(lasers_fell(w0.lasers@, w1.lasers@, idx, dt));
}

} // verus!
