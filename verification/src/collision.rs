//! Collision detection primitives.

use crate::geo::{drawable_rect, rects_intersect, Point, Rect};
use crate::invaders::{
    bounds_ordered, fleet_box, grid_shaped, invader_at, live, Bullet, Bounds, Invader, Invaders,
    Laser, Player, Shield, COLS, GRID_X, GRID_Y, ROWS,
};
use crate::sprites::{Drawable, Sprite, SpriteRef};
use vstd::prelude::*;

verus! {

/// Information regarding collisions between bullets and invaders, lasers, or shields.
#[derive(Clone, Copy, Debug, PartialEq, Eq, Hash, Structural)]
pub enum BulletDetail {
    /// A grid position (col, row) for an invader.
    Invader(usize, usize),
    /// A shield index.
    Shield(usize),
    /// Collided with a laser.
    Laser,
}

/// Information regarding collisions between lasers and shields or the player.
#[derive(Clone, Copy, Debug, PartialEq, Eq, Hash, Structural)]
pub enum LaserDetail {
    /// A shield index.
    Shield(usize),
    /// Collided with the player.
    Player,
}

/// Store information about collisions (for debug mode).
///
/// The details are sets: each detail is held at most once.
#[derive(Debug)]
pub struct Collision {
    pub bullet_details: Vec<BulletDetail>,
    pub laser_details: Vec<LaserDetail>,
    pub pixel_mask: Vec<u8>,
}

/// The screen rectangle of a sprite drawn at `pos`.
pub open spec fn sprite_ref_rect(pos: Point, s: SpriteRef) -> Rect {
    drawable_rect(pos, s.width, s.height)
}

/// The screen rectangle of a shield.
pub open spec fn shield_rect(s: Shield) -> Rect {
    drawable_rect(s.pos, s.sprite.width, s.sprite.height)
}

/// A sprite drawn at `pos` has a rectangle whose corners fit in a `usize`.
pub open spec fn rect_fits(pos: Point, width: usize, height: usize) -> bool {
    pos.x + width <= usize::MAX && pos.y + height <= usize::MAX
}

/// The first four shields exist and their rectangles fit in a `usize`.
pub open spec fn shields_fit(shields: Seq<Shield>) -> bool {
    &&& shields.len() >= 4
    &&& forall|i: int|
        0 <= i < 4 ==> rect_fits(
            #[trigger] shields[i].pos,
            shields[i].sprite.width,
            shields[i].sprite.height,
        )
}

/// The first four shields whose rectangles intersect `r`.
pub open spec fn shield_hit(r: Rect, shields: Seq<Shield>, i: int) -> bool {
    0 <= i < 4 && rects_intersect(r, shield_rect(shields[i]))
}

/// Create the rectangles of the four shields.
pub fn create_shield_rects(shields: &[Shield]) -> (rects: [Rect; 4])
    requires
        shields_fit(shields@),
    ensures
        forall|i: int| 0 <= i < 4 ==> #[trigger] rects@[i] == shield_rect(shields@[i]),
{
    [
        Rect::from_drawable(shields[0].pos, &shields[0].sprite),
        Rect::from_drawable(shields[1].pos, &shields[1].sprite),
        Rect::from_drawable(shields[2].pos, &shields[2].sprite),
        Rect::from_drawable(shields[3].pos, &shields[3].sprite),
    ]
}

impl Default for Collision {
    fn default() -> (c: Self)
        ensures
            c.bullet_details@ == Seq::<BulletDetail>::empty(),
            c.laser_details@ == Seq::<LaserDetail>::empty(),
            c.pixel_mask@ == Seq::<u8>::empty(),
    {
        Collision { bullet_details: Vec::new(), laser_details: Vec::new(), pixel_mask: Vec::new() }
    }
}

impl Collision {
    /// The details are held at most once each.
    pub open spec fn wf(&self) -> bool {
        &&& self.bullet_details@.no_duplicates()
        &&& self.laser_details@.no_duplicates()
    }

    /// The set of bullet collision details.
    pub open spec fn bullet_set(&self) -> Set<BulletDetail> {
        self.bullet_details@.to_set()
    }

    /// The set of laser collision details.
    pub open spec fn laser_set(&self) -> Set<LaserDetail> {
        self.laser_details@.to_set()
    }

    /// Record a bullet collision detail.
    fn insert_bullet_detail(&mut self, detail: BulletDetail)
        requires
            old(self).wf(),
        ensures
            final(self).wf(),
            final(self).bullet_set() == old(self).bullet_set().insert(detail),
            final(self).laser_details == old(self).laser_details,
            final(self).pixel_mask == old(self).pixel_mask,
            final(self).bullet_details@.subrange(0, old(self).bullet_details@.len() as int)
                == old(self).bullet_details@,
    {
        let mut i: usize = 0;
        while i < self.bullet_details.len()
            invariant
                0 <= i <= self.bullet_details@.len(),
                *self == *old(self),
                self.wf(),
                forall|j: int| 0 <= j < i ==> #[trigger] self.bullet_details@[j] != detail,
            decreases self.bullet_details@.len() - i,
        {
            if self.bullet_details[i] == detail {
                proof {
                    assert(self.bullet_set().insert(detail) =~= self.bullet_set());
                    assert(self.bullet_details@.subrange(0, self.bullet_details@.len() as int)
                        =~= self.bullet_details@);
                }
                return;
            }
            i = i + 1;
        }
        let ghost before = self.bullet_details@;
        self.bullet_details.push(detail);
        proof {
            assert(self.bullet_details@ == before.push(detail));
            assert(!before.contains(detail));
            assert(self.bullet_set() =~= before.to_set().insert(detail)) by {
                vstd::seq_lib::lemma_seq_contains_after_push(before, detail, detail);
                assert forall|d: BulletDetail| #[trigger] self.bullet_set().contains(d) <==> before.to_set().insert(detail).contains(d) by {
                    if d != detail {
                        vstd::seq_lib::lemma_seq_contains_after_push(before, detail, d);
                    }
                }
            }
            assert(self.bullet_details@.subrange(0, before.len() as int) =~= before);
        }
    }

    /// Record a laser collision detail.
    fn insert_laser_detail(&mut self, detail: LaserDetail)
        requires
            old(self).wf(),
        ensures
            final(self).wf(),
            final(self).laser_set() == old(self).laser_set().insert(detail),
            final(self).bullet_details == old(self).bullet_details,
            final(self).pixel_mask == old(self).pixel_mask,
    {
        let mut i: usize = 0;
        while i < self.laser_details.len()
            invariant
                0 <= i <= self.laser_details@.len(),
                *self == *old(self),
                self.wf(),
                forall|j: int| 0 <= j < i ==> #[trigger] self.laser_details@[j] != detail,
            decreases self.laser_details@.len() - i,
        {
            if self.laser_details[i] == detail {
                proof {
                    assert(self.laser_set().insert(detail) =~= self.laser_set());
                }
                return;
            }
            i = i + 1;
        }
        let ghost before = self.laser_details@;
        self.laser_details.push(detail);
        proof {
            assert(!before.contains(detail));
            assert(self.laser_set() =~= before.to_set().insert(detail)) by {
                assert forall|d: LaserDetail| #[trigger] self.laser_set().contains(d) <==> before.to_set().insert(detail).contains(d) by {
                    vstd::seq_lib::lemma_seq_contains_after_push(before, detail, d);
                }
            }
        }
    }

    /// Clear the collision details.
    pub fn clear(&mut self)
        ensures
            final(self).wf(),
            final(self).bullet_set() == Set::<BulletDetail>::empty(),
            final(self).laser_set() == Set::<LaserDetail>::empty(),
            final(self).pixel_mask == old(self).pixel_mask,
    {
        self.bullet_details.clear();
        self.laser_details.clear();
        proof {
            assert(self.bullet_set() =~= Set::<BulletDetail>::empty());
            assert(self.laser_set() =~= Set::<LaserDetail>::empty());
        }
    }
}


impl Collision {
    /// Handle collisions between bullets and shields.
    ///
    /// Each shield whose rectangle intersects the bullet's is recorded, and the bullet is
    /// destroyed when there is at least one.
    pub fn bullet_to_shield(&mut self, bullet: &mut Option<Bullet>, shields: &[Shield])
        requires
            old(self).wf(),
            old(bullet).is_some() ==> shields_fit(shields@) && rect_fits(
                old(bullet).unwrap().pos,
                old(bullet).unwrap().sprite.width,
                old(bullet).unwrap().sprite.height,
            ),
        ensures
            final(self).wf(),
            final(self).laser_details == old(self).laser_details,
            final(self).pixel_mask == old(self).pixel_mask,
            old(bullet).is_none() ==> *final(bullet) == *old(bullet) && final(self).bullet_set()
                == old(self).bullet_set(),
            old(bullet).is_some() ==> {
                let r = sprite_ref_rect(old(bullet).unwrap().pos, old(bullet).unwrap().sprite);
                &&& forall|d: BulletDetail|
                    #[trigger] final(self).bullet_set().contains(d) <==> old(self).bullet_set().contains(d)
                        || (d is Shield && shield_hit(r, shields@, d->Shield_0 as int))
                &&& (exists|i: int| shield_hit(r, shields@, i)) ==> *final(bullet) is None
                &&& !(exists|i: int| shield_hit(r, shields@, i)) ==> *final(bullet) == *old(bullet)
            },
    {
        if bullet.is_some() {
            let shield_rects = create_shield_rects(shields);
            let bullet_rect = {
                let b = bullet.as_ref().unwrap();
                Rect::from_drawable(b.pos, &b.sprite)
            };
            let ghost r = bullet_rect;
            let ghost start = self.bullet_set();

            let mut i: usize = 0;
            while i < 4
                invariant
                    0 <= i <= 4,
                    self.wf(),
                    self.laser_details == old(self).laser_details,
                    self.pixel_mask == old(self).pixel_mask,
                    start == old(self).bullet_set(),
                    r == sprite_ref_rect(old(bullet).unwrap().pos, old(bullet).unwrap().sprite),
                    bullet_rect == r,
                    forall|j: int| 0 <= j < 4 ==> #[trigger] shield_rects@[j] == shield_rect(shields@[j]),
                    forall|d: BulletDetail|
                        #[trigger] self.bullet_set().contains(d) <==> start.contains(d) || (d is Shield
                            && d->Shield_0 < i && shield_hit(r, shields@, d->Shield_0 as int)),
                    (exists|j: int| 0 <= j < i && shield_hit(r, shields@, j)) ==> *bullet is None,
                    !(exists|j: int| 0 <= j < i && shield_hit(r, shields@, j)) ==> *bullet == *old(
                        bullet),
                decreases 4 - i,
            {
                // Broad phase collision detection: the shield's whole rectangle counts
                if bullet_rect.intersects(shield_rects[i]) {
                    let detail = BulletDetail::Shield(i);
                    let ghost before = self.bullet_set();
                    self.insert_bullet_detail(detail);

                    // Destroy bullet
                    *bullet = None;
                    proof {
                        assert(shield_hit(r, shields@, i as int));
                    }
                }
                proof {
                    assert forall|j: int| 0 <= j < i + 1 && shield_hit(r, shields@, j) implies (j < i
                        && shield_hit(r, shields@, j)) || j == i by {}
                }
                i = i + 1;
            }
            proof {
                assert forall|j: int| shield_hit(r, shields@, j) implies 0 <= j < 4 by {}
            }
        }
    }

    /// Handle collisions between lasers and bullets.
    ///
    /// Returns `true` when the laser and the bullet collide; the collision is recorded and the
    /// bullet is destroyed.
    pub fn laser_to_bullet(&mut self, laser: &Laser, bullet: &mut Option<Bullet>) -> (destroy: bool)
        requires
            old(self).wf(),
            rect_fits(laser.pos, laser.sprite.width, laser.sprite.height),
            old(bullet).is_some() ==> rect_fits(
                old(bullet).unwrap().pos,
                old(bullet).unwrap().sprite.width,
                old(bullet).unwrap().sprite.height,
            ),
        ensures
            final(self).wf(),
            final(self).laser_details == old(self).laser_details,
            final(self).pixel_mask == old(self).pixel_mask,
            destroy == (old(bullet).is_some() && rects_intersect(
                sprite_ref_rect(old(bullet).unwrap().pos, old(bullet).unwrap().sprite),
                sprite_ref_rect(laser.pos, laser.sprite),
            )),
            destroy ==> *final(bullet) is None && final(self).bullet_set() == old(
                self,
            ).bullet_set().insert(BulletDetail::Laser),
            !destroy ==> *final(bullet) == *old(bullet) && final(self).bullet_set() == old(
                self,
            ).bullet_set(),
    {
        let mut destroy = false;
        if bullet.is_some() {
            let laser_rect = Rect::from_drawable(laser.pos, &laser.sprite);

            if let Some(b) = &bullet {
                let bullet_rect = Rect::from_drawable(b.pos, &b.sprite);
                if bullet_rect.intersects(laser_rect) {
                    let detail = BulletDetail::Laser;
                    self.insert_bullet_detail(detail);

                    // Destroy laser and bullet
                    destroy = true;
                }
            }

            if destroy {
                *bullet = None;
            }
        }

        destroy
    }

    /// Handle collisions between lasers and shields.
    ///
    /// Returns `true` when the laser hits a shield; each shield hit is recorded.
    pub fn laser_to_shield(&mut self, laser: &Laser, shields: &[Shield]) -> (destroy: bool)
        requires
            old(self).wf(),
            shields_fit(shields@),
            rect_fits(laser.pos, laser.sprite.width, laser.sprite.height),
        ensures
            final(self).wf(),
            final(self).bullet_details == old(self).bullet_details,
            final(self).pixel_mask == old(self).pixel_mask,
            destroy == exists|i: int| shield_hit(sprite_ref_rect(laser.pos, laser.sprite), shields@, i),
            forall|d: LaserDetail|
                #[trigger] final(self).laser_set().contains(d) <==> old(self).laser_set().contains(d) || (
                d is Shield && shield_hit(
                    sprite_ref_rect(laser.pos, laser.sprite),
                    shields@,
                    d->Shield_0 as int,
                )),
    {
        let laser_rect = Rect::from_drawable(laser.pos, &laser.sprite);
        let shield_rects = create_shield_rects(shields);
        let mut destroy = false;
        let ghost r = laser_rect;
        let ghost start = self.laser_set();

        let mut i: usize = 0;
        while i < 4
            invariant
                0 <= i <= 4,
                self.wf(),
                self.bullet_details == old(self).bullet_details,
                self.pixel_mask == old(self).pixel_mask,
                start == old(self).laser_set(),
                r == sprite_ref_rect(laser.pos, laser.sprite),
                laser_rect == r,
                forall|j: int| 0 <= j < 4 ==> #[trigger] shield_rects@[j] == shield_rect(shields@[j]),
                forall|d: LaserDetail|
                    #[trigger] self.laser_set().contains(d) <==> start.contains(d) || (d is Shield
                        && d->Shield_0 < i && shield_hit(r, shields@, d->Shield_0 as int)),
                destroy == exists|j: int| 0 <= j < i && shield_hit(r, shields@, j),
            decreases 4 - i,
        {
            // Broad phase collision detection: the shield's whole rectangle counts
            if laser_rect.intersects(shield_rects[i]) {
                let detail = LaserDetail::Shield(i);
                self.insert_laser_detail(detail);

                // Destroy laser
                destroy = true;
                proof {
                    assert(shield_hit(r, shields@, i as int));
                }
            }
            proof {
                assert forall|j: int| 0 <= j < i + 1 && shield_hit(r, shields@, j) implies (j < i
                    && shield_hit(r, shields@, j)) || j == i by {}
            }
            i = i + 1;
        }
        proof {
            assert forall|j: int| shield_hit(r, shields@, j) implies 0 <= j < 4 by {}
        }

        destroy
    }

    /// Handle collisions between lasers and the player.
    ///
    /// Returns `true` when the laser hits the player; the hit is recorded.
    pub fn laser_to_player(&mut self, laser: &Laser, player: &Player) -> (hit: bool)
        requires
            old(self).wf(),
            rect_fits(laser.pos, laser.sprite.width, laser.sprite.height),
            rect_fits(player.pos, player.sprite.width, player.sprite.height),
        ensures
            final(self).wf(),
            final(self).bullet_details == old(self).bullet_details,
            final(self).pixel_mask == old(self).pixel_mask,
            hit == rects_intersect(
                sprite_ref_rect(laser.pos, laser.sprite),
                sprite_ref_rect(player.pos, player.sprite),
            ),
            hit ==> final(self).laser_set() == old(self).laser_set().insert(LaserDetail::Player),
            !hit ==> final(self).laser_set() == old(self).laser_set(),
    {
        let laser_rect = Rect::from_drawable(laser.pos, &laser.sprite);
        let player_rect = Rect::from_drawable(player.pos, &player.sprite);
        if laser_rect.intersects(player_rect) {
            self.insert_laser_detail(LaserDetail::Player);
            true
        } else {
            false
        }
    }
}


/// The grid cell `(col, row)` under the screen position `(x, y)`, for a fleet whose bounding box
/// starts at `(left, top)`.
pub open spec fn cell_under(b: Bounds, x: int, y: int) -> (int, int) {
    ((x - b.pos.x) / (GRID_X as int) + b.left_col, (y - b.pos.y) / (GRID_Y as int) + b.top_row)
}

/// The four corners of a rectangle, in the order in which they are checked.
pub open spec fn corner(r: Rect, k: int) -> (int, int) {
    if k == 0 {
        (r.p1.x as int, r.p1.y as int)
    } else if k == 1 {
        (r.p1.x as int, r.p2.y as int)
    } else if k == 2 {
        (r.p2.x as int, r.p1.y as int)
    } else {
        (r.p2.x as int, r.p2.y as int)
    }
}

/// A corner of the bullet rectangle `r` lies over the live invader at column `c` and row `rw`.
pub open spec fn corner_hit(invaders: &Invaders, r: Rect, c: int, rw: int) -> bool {
    exists|k: int|
        0 <= k < 4 && #[trigger] cell_under(invaders.bounds, corner(r, k).0, corner(r, k).1) == (
        c,
        rw,
        ) && c < COLS && rw < ROWS && live(invaders.grid@, rw, c)
}

/// The rectangle that bounds the fleet.
pub open spec fn fleet_rect(b: Bounds) -> Rect {
    Rect {
        p1: Point { x: fleet_box(b).3 as usize, y: fleet_box(b).0 as usize },
        p2: Point { x: fleet_box(b).1 as usize, y: fleet_box(b).2 as usize },
    }
}

/// The screen rectangle of the invader at row `r` and column `c`.
pub open spec fn invader_rect(grid: Seq<Vec<Option<Invader>>>, r: int, c: int) -> Rect {
    sprite_ref_rect(invader_at(grid, r, c).pos, invader_at(grid, r, c).sprite)
}

/// Every live invader's rectangle fits in a `usize`.
pub open spec fn invader_rects_fit(grid: Seq<Vec<Option<Invader>>>) -> bool {
    forall|r: int, c: int|
        #[trigger] live(grid, r, c) ==> rect_fits(
            invader_at(grid, r, c).pos,
            invader_at(grid, r, c).sprite.width,
            invader_at(grid, r, c).sprite.height,
        )
}

/// Every invader named in a bullet collision detail is alive.
pub open spec fn invader_details_live(details: Set<BulletDetail>, grid: Seq<Vec<Option<Invader>>>) -> bool {
    forall|c: usize, r: usize|
        #[trigger] details.contains(BulletDetail::Invader(c, r)) ==> live(grid, r as int, c as int)
}

/// Row `i` of the grid once the cell at row `r` and column `c` is emptied.
pub open spec fn row_without(grid: Seq<Vec<Option<Invader>>>, r: int, c: int, i: int) -> Seq<Option<Invader>> {
    if i == r {
        grid[r]@.update(c, None)
    } else {
        grid[i]@
    }
}

/// The bullet collision details after the broad phase: the old ones, and, when the bullet
/// overlaps the fleet, the live invaders under a corner of the bullet.
pub open spec fn bullet_candidates(
    old_details: Set<BulletDetail>,
    invaders: &Invaders,
    r: Rect,
    d: BulletDetail,
) -> bool {
    ||| old_details.contains(d)
    ||| rects_intersect(r, fleet_rect(invaders.bounds)) && d is Invader && corner_hit(
        invaders,
        r,
        d->Invader_0 as int,
        d->Invader_1 as int,
    )
}

impl Collision {
    /// Handle collisions between bullets and invaders.
    ///
    /// When the bullet overlaps the fleet, the live invaders under its corners are recorded as
    /// candidates. The first recorded candidate whose rectangle the bullet intersects is
    /// destroyed together with the bullet, and both are returned.
    pub fn bullet_to_invader(&mut self, bullet: &mut Option<Bullet>, invaders: &mut Invaders) -> (hit:
        Option<(Bullet, Invader)>)
        requires
            old(self).wf(),
            old(bullet).is_some(),
            grid_shaped(old(invaders).grid@),
            bounds_ordered(old(invaders).bounds),
            invader_rects_fit(old(invaders).grid@),
            invader_details_live(old(self).bullet_set(), old(invaders).grid@),
            rect_fits(
                old(bullet).unwrap().pos,
                old(bullet).unwrap().sprite.width,
                old(bullet).unwrap().sprite.height,
            ),
            rects_intersect(
                sprite_ref_rect(old(bullet).unwrap().pos, old(bullet).unwrap().sprite),
                fleet_rect(old(invaders).bounds),
            ) ==> old(bullet).unwrap().pos.x >= old(invaders).bounds.pos.x && old(bullet).unwrap().pos.y
                >= old(invaders).bounds.pos.y,
        ensures
            final(self).wf(),
            final(self).laser_details == old(self).laser_details,
            final(self).pixel_mask == old(self).pixel_mask,
            final(invaders).bounds == old(invaders).bounds,
            final(invaders).stepper == old(invaders).stepper,
            final(invaders).direction == old(invaders).direction,
            final(invaders).descend == old(invaders).descend,
            forall|d: BulletDetail|
                #[trigger] final(self).bullet_set().contains(d) <==> bullet_candidates(
                    old(self).bullet_set(),
                    &*old(invaders),
                    sprite_ref_rect(old(bullet).unwrap().pos, old(bullet).unwrap().sprite),
                    d,
                ),
            hit is None ==> *final(bullet) == *old(bullet) && final(invaders).grid == old(
                invaders,
            ).grid,
            hit is None && rects_intersect(
                sprite_ref_rect(old(bullet).unwrap().pos, old(bullet).unwrap().sprite),
                fleet_rect(old(invaders).bounds),
            ) ==> forall|c: usize, r: usize|
                #[trigger] final(self).bullet_set().contains(BulletDetail::Invader(c, r))
                    ==> !rects_intersect(
                    sprite_ref_rect(old(bullet).unwrap().pos, old(bullet).unwrap().sprite),
                    invader_rect(old(invaders).grid@, r as int, c as int),
                ),
            hit is Some ==> {
                let (b, inv) = hit->Some_0;
                &&& b == old(bullet).unwrap()
                &&& *final(bullet) is None
                &&& rects_intersect(
                    sprite_ref_rect(old(bullet).unwrap().pos, old(bullet).unwrap().sprite),
                    fleet_rect(old(invaders).bounds),
                )
                &&& exists|c: usize, r: usize|
                    {
                        &&& #[trigger] final(self).bullet_set().contains(BulletDetail::Invader(c, r))
                        &&& live(old(invaders).grid@, r as int, c as int)
                        &&& inv == invader_at(old(invaders).grid@, r as int, c as int)
                        &&& rects_intersect(
                            sprite_ref_rect(old(bullet).unwrap().pos, old(bullet).unwrap().sprite),
                            invader_rect(old(invaders).grid@, r as int, c as int),
                        )
                        &&& final(invaders).grid@.len() == old(invaders).grid@.len()
                        &&& forall|i: int|
                            0 <= i < old(invaders).grid@.len() ==> #[trigger] final(invaders).grid@[i]@
                                == row_without(old(invaders).grid@, r as int, c as int, i)
                    }
            },
    {
        // Broad phase collision detection
        let (top, right, bottom, left) = invaders.get_bounds();
        let invaders_rect = Rect::new(Point::new(left, top), Point::new(right, bottom));
        let bullet_rect = {
            let b = bullet.as_ref().unwrap();
            Rect::from_drawable(b.pos, &b.sprite)
        };
        let ghost br = bullet_rect;
        let ghost start = self.bullet_set();
        let ghost inv0 = *invaders;
        assert(invaders_rect == fleet_rect(invaders.bounds));
        if bullet_rect.intersects(invaders_rect) {
            // Narrow phase collision detection
            let corners = [
                (bullet_rect.p1.x, bullet_rect.p1.y),
                (bullet_rect.p1.x, bullet_rect.p2.y),
                (bullet_rect.p2.x, bullet_rect.p1.y),
                (bullet_rect.p2.x, bullet_rect.p2.y),
            ];

            let mut k: usize = 0;
            while k < 4
                invariant
                    0 <= k <= 4,
                    self.wf(),
                    *bullet == *old(bullet),
                    inv0 == *old(invaders),
                    self.laser_details == old(self).laser_details,
                    self.pixel_mask == old(self).pixel_mask,
                    *invaders == inv0,
                    grid_shaped(invaders.grid@),
                    bounds_ordered(invaders.bounds),
                    left == invaders.bounds.pos.x,
                    top == invaders.bounds.pos.y,
                    br == bullet_rect,
                    left <= br.p1.x,
                    top <= br.p1.y,
                    br.p1.x <= br.p2.x,
                    br.p1.y <= br.p2.y,
                    forall|j: int| 0 <= j < 4 ==> #[trigger] corners@[j] == (corner(br, j).0 as usize, corner(br, j).1 as usize),
                    forall|d: BulletDetail|
                        #[trigger] self.bullet_set().contains(d) <==> start.contains(d) || (d is Invader
                            && exists|j: int|
                            0 <= j < k && #[trigger] cell_under(invaders.bounds, corner(br, j).0, corner(br, j).1)
                                == (d->Invader_0 as int, d->Invader_1 as int) && d->Invader_0 < COLS
                                && d->Invader_1 < ROWS && live(invaders.grid@, d->Invader_1 as int, d->Invader_0 as int)),
                decreases 4 - k,
            {
                let (x, y) = corners[k];
                let col = (x - left) / GRID_X + invaders.bounds.left_col;
                let row = (y - top) / GRID_Y + invaders.bounds.top_row;

                if col < COLS && row < ROWS && invaders.grid[row][col].is_some() {
                    let detail = BulletDetail::Invader(col, row);
                    self.insert_bullet_detail(detail);
                }
                proof {
                    assert(cell_under(invaders.bounds, corner(br, k as int).0, corner(br, k as int).1)
                        == (col as int, row as int));
                }
                k = k + 1;
            }
            proof {
                assert forall|d: BulletDetail| #[trigger] self.bullet_set().contains(d) <==> bullet_candidates(
                    start,
                    &inv0,
                    br,
                    d,
                ) by {}
            }

            // If any collision candidate is a hit, kill the bullet and invader
            let mut i: usize = 0;
            while i < self.bullet_details.len()
                invariant
                    0 <= i <= self.bullet_details@.len(),
                    self.wf(),
                    *bullet == *old(bullet),
                    inv0 == *old(invaders),
                    old(bullet).is_some(),
                    self.laser_details == old(self).laser_details,
                    self.pixel_mask == old(self).pixel_mask,
                    start == old(self).bullet_set(),
                    br == sprite_ref_rect(old(bullet).unwrap().pos, old(bullet).unwrap().sprite),
                    rects_intersect(br, fleet_rect(inv0.bounds)),
                    forall|d: BulletDetail|
                        #[trigger] self.bullet_set().contains(d) <==> bullet_candidates(start, &inv0, br, d),
                    *invaders == inv0,
                    grid_shaped(invaders.grid@),
                    invader_rects_fit(invaders.grid@),
                    invader_details_live(self.bullet_set(), invaders.grid@),
                    br == bullet_rect,
                    forall|j: int|
                        0 <= j < i ==> !(#[trigger] self.bullet_details@[j] is Invader && rects_intersect(
                            br,
                            invader_rect(
                                invaders.grid@,
                                self.bullet_details@[j]->Invader_1 as int,
                                self.bullet_details@[j]->Invader_0 as int,
                            ),
                        )),
                decreases self.bullet_details@.len() - i,
            {
                let detail = self.bullet_details[i];
                if let BulletDetail::Invader(x, y) = detail {
                    proof {
                        assert(self.bullet_details@[i as int] == detail);
                        assert(self.bullet_details@.contains(detail));
                        assert(self.bullet_set().contains(BulletDetail::Invader(x, y)));
                        assert(live(invaders.grid@, y as int, x as int));
                    }
                    let invader = invaders.grid[y][x].as_ref().unwrap();
                    let invader_rect = Rect::from_drawable(invader.pos, &invader.sprite);
                    if bullet_rect.intersects(invader_rect) {
                        // Destroy invader
                        let dead = invaders.grid[y][x].take().unwrap();

                        // Destroy bullet
                        let b = bullet.take().unwrap();

                        return Some((b, dead));
                    }
                }
                i = i + 1;
            }
            proof {
                assert forall|c: usize, r: usize|
                    #[trigger] self.bullet_set().contains(BulletDetail::Invader(c, r)) implies !rects_intersect(
                    br,
                    invader_rect(invaders.grid@, r as int, c as int),
                ) by {
                    let j = choose|j: int| 0 <= j < self.bullet_details@.len() && self.bullet_details@[j] == BulletDetail::Invader(c, r);
                    assert(self.bullet_details@[j] is Invader);
                }
            }
        }

        None
    }
}

} // verus!
