//! Point entities that are pushed down the pressure gradient and bounce off
//! everything that is not open space.

use crate::scalar::{
    cell_distance, nearest_cell, negated, sign_of, signum, single_add, single_div,
    single_from_int, single_mul, single_sub, Scalar, ZERO_BITS,
};
use crate::world::{block_dx, block_dy, tile_at, Grid, Tile, HEIGHT, WIDTH};
use vstd::prelude::*;

verus! {

pub type Coordinate = Scalar;

/// A place on the grid, as column and row, between the cells too.
pub type Point = [Coordinate; 2];

/// A change of place per tick, along the columns and along the rows.
pub type Vector = [Scalar; 2];

/// An entity: where it is and how fast it moves.
#[derive(Clone, Copy, Debug, PartialEq, Eq)]
pub struct Entity {
    pub position: Point,
    pub velocity: Vector,
}

/// What an entity is to the rules of motion: the bit patterns of its place
/// and of its velocity.
pub struct Motion {
    pub x: u32,
    pub y: u32,
    pub vx: u32,
    pub vy: u32,
}

impl View for Entity {
    type V = Motion;

    open spec fn view(&self) -> Motion {
        Motion {
            x: self.position[0].bits,
            y: self.position[1].bits,
            vx: self.velocity[0].bits,
            vy: self.velocity[1].bits,
        }
    }
}

/// Bit pattern of the pressure that an entity feels at column `x`, row `y`:
/// that of an open cell, and zero at a wall, at a drain and off the grid.
pub open spec fn pressure_at(field: Seq<Tile>, x: int, y: int) -> u32 {
    match tile_at(field, x, y) {
        Some(Tile::Empty(value)) => value.bits,
        _ => ZERO_BITS,
    }
}

/// Bit pattern of the rise of the pressure from column `x`, row `y` to the
/// cell `dx` columns and `dy` rows away, per unit of distance.
pub open spec fn slope(field: Seq<Tile>, x: int, y: int, dx: int, dy: int) -> u32 {
    single_div(
        single_sub(pressure_at(field, x + dx, y + dy), pressure_at(field, x, y)),
        cell_distance(-dx, -dy),
    )
}

/// Bit pattern of the velocity `v` along one axis after a push by `delta`
/// away from a neighbour that lies `d` cells off along that axis.
pub open spec fn pushed(v: u32, d: int, delta: u32) -> u32 {
    single_add(v, single_mul(single_from_int(-sign_of(d)), delta))
}

/// The velocity `(vx, vy)` after the pushes from the diagonal cells among the
/// first `k` cells of the 3x3 block round column `x`, row `y`. The cells in
/// line with the middle one give no push.
pub open spec fn pushed_by_block(
    field: Seq<Tile>,
    x: int,
    y: int,
    vx: u32,
    vy: u32,
    k: nat,
) -> (u32, u32)
    decreases k,
{
    if k == 0 {
        (vx, vy)
    } else {
        let before = pushed_by_block(field, x, y, vx, vy, (k - 1) as nat);
        let dx = block_dx(k - 1);
        let dy = block_dy(k - 1);
        if dx != 0 && dy != 0 {
            let delta = slope(field, x, y, dx, dy);
            (pushed(before.0, dx, delta), pushed(before.1, dy, delta))
        } else {
            before
        }
    }
}

impl Motion {
    /// Column and row of the cell that holds the entity.
    pub open spec fn cell(self) -> (int, int) {
        (nearest_cell(self.x), nearest_cell(self.y))
    }

    /// The entity after the pressure round its cell has pushed it: the place
    /// stays, the velocity takes the four diagonal pushes.
    pub open spec fn accelerated(self, field: Seq<Tile>) -> Motion {
        let v = pushed_by_block(field, self.cell().0, self.cell().1, self.vx, self.vy, 9);
        Motion { x: self.x, y: self.y, vx: v.0, vy: v.1 }
    }

    /// Where one tick at the present velocity would take the entity.
    pub open spec fn aim(self) -> (u32, u32) {
        (single_add(self.x, self.vx), single_add(self.y, self.vy))
    }

    /// The entity turned round on the spot.
    pub open spec fn bounced(self) -> Motion {
        Motion { x: self.x, y: self.y, vx: negated(self.vx), vy: negated(self.vy) }
    }

    /// The entity after an attempt to move to `(x, y)`, where `tile` is what
    /// the grid holds there: it moves onto open space, and bounces off a wall,
    /// off a drain and off the edge of the grid.
    pub open spec fn landed(self, x: u32, y: u32, tile: Option<Tile>) -> Motion {
        match tile {
            Some(Tile::Empty(_)) => Motion { x: x, y: y, vx: self.vx, vy: self.vy },
            _ => self.bounced(),
        }
    }

    /// The entity after it has tried to move by its velocity.
    pub open spec fn advanced(self, field: Seq<Tile>) -> Motion {
        let aim = self.aim();
        self.landed(aim.0, aim.1, tile_at(field, nearest_cell(aim.0), nearest_cell(aim.1)))
    }

    /// The entity after one tick on `field`: pushed, then moved or bounced.
    pub open spec fn stepped(self, field: Seq<Tile>) -> Motion {
        self.accelerated(field).advanced(field)
    }
}

impl Entity {
    pub fn new(position: Point, velocity: Vector) -> (r: Entity)
        ensures
            r.position == position,
            r.velocity == velocity,
    {
        Entity { position: position, velocity: velocity }
    }

    /// One tick: the pressure round the entity's cell pushes it, then it moves
    /// by its velocity, or bounces where the move would not end on open space.
    pub fn simulate(&mut self, map: &Grid)
        ensures
            final(self)@ == old(self)@.stepped(map@),
    {
        let from = self.map_position();
        let from_value = Self::get_value(map, from[0], from[1], 0, 0);
        let ghost start = self@;
        for y in -1..2isize
            invariant
                from[0] == start.cell().0,
                from[1] == start.cell().1,
                from_value.bits == pressure_at(map@, start.cell().0, start.cell().1),
                self@.x == start.x,
                self@.y == start.y,
                (self@.vx, self@.vy) == pushed_by_block(
                    map@,
                    start.cell().0,
                    start.cell().1,
                    start.vx,
                    start.vy,
                    (3 * (y + 1)) as nat,
                ),
        {
            for x in -1..2isize
                invariant
                    -1 <= y <= 1,
                    from[0] == start.cell().0,
                    from[1] == start.cell().1,
                    from_value.bits == pressure_at(map@, start.cell().0, start.cell().1),
                    self@.x == start.x,
                    self@.y == start.y,
                    (self@.vx, self@.vy) == pushed_by_block(
                        map@,
                        start.cell().0,
                        start.cell().1,
                        start.vx,
                        start.vy,
                        (3 * (y + 1) + (x + 1)) as nat,
                    ),
            {
                let ghost k = 3 * (y + 1) + (x + 1);
                assert(block_dx(k) == x && block_dy(k) == y);
                if x != 0 && y != 0 {
                    let to_value = Self::get_value(map, from[0], from[1], x, y);
                    let distance = Scalar::cell_distance(-x, -y);
                    let delta = to_value.sub(from_value).div(distance);
                    let across = self.velocity[0].add(Scalar::from_coordinate(-signum(x)).mul(delta));
                    let down = self.velocity[1].add(Scalar::from_coordinate(-signum(y)).mul(delta));
                    self.velocity = [across, down];
                }
            }
        }
        let to = [self.position[0].add(self.velocity[0]), self.position[1].add(self.velocity[1])];
        let to_map = [to[0].nearest_cell(), to[1].nearest_cell()];
        let tile = match map.at(to_map) {
            Some(tile) => Some(*tile),
            None => None,
        };
        self.land(to, tile);
    }

    /// Ends an attempt to move to `to`, where `tile` is what the grid holds
    /// there: the entity moves onto open space and bounces off anything else.
    pub fn land(&mut self, to: Point, tile: Option<Tile>)
        ensures
            final(self)@ == old(self)@.landed(to[0].bits, to[1].bits, tile),
    {
        match tile {
            Some(Tile::Empty(_)) => self.position = to,
            _ => self.bounce(),
        }
    }

    /// The cell that holds the entity.
    pub fn map_position(&self) -> (r: crate::world::Point)
        ensures
            r[0] == self@.cell().0,
            r[1] == self@.cell().1,
    {
        [self.position[0].nearest_cell(), self.position[1].nearest_cell()]
    }

    /// Turns the entity round on the spot.
    pub fn bounce(&mut self)
        ensures
            final(self)@ == old(self)@.bounced(),
    {
        self.velocity = [self.velocity[0].neg(), self.velocity[1].neg()];
    }

    /// The pressure that an entity feels `dx` columns and `dy` rows away from
    /// column `x`, row `y`.
    fn get_value(map: &Grid, x: isize, y: isize, dx: isize, dy: isize) -> (r: Scalar)
        requires
            -1 <= dx <= 1,
            -1 <= dy <= 1,
        ensures
            r.bits == pressure_at(map@, x + dx, y + dy),
    {
        if x < -1 || x > WIDTH as isize || y < -1 || y > HEIGHT as isize {
            Scalar::zero()
        } else {
            match map.at([x + dx, y + dy]) {
                Some(tile) => match tile {
                    Tile::Empty(value) => *value,
                    _ => Scalar::zero(),
                },
                None => Scalar::zero(),
            }
        }
    }
}

/// An entity whose move would end on a wall, on a drain or off the grid stays
/// where it is, and both parts of its velocity change their sign.
pub proof fn lemma_blocked_move_bounces(body: Motion, field: Seq<Tile>)
    requires
        !(tile_at(field, nearest_cell(body.aim().0), nearest_cell(body.aim().1)) matches Some(
            Tile::Empty(_),
        )),
    ensures
        body.advanced(field).x == body.x,
        body.advanced(field).y == body.y,
        body.advanced(field).vx == negated(body.vx),
        body.advanced(field).vy == negated(body.vy),
{
}

/// An entity whose move ends on open space arrives there and keeps its
/// velocity.
pub proof fn lemma_free_move_arrives(body: Motion, field: Seq<Tile>)
    requires
        tile_at(field, nearest_cell(body.aim().0), nearest_cell(body.aim().1)) matches Some(
            Tile::Empty(_),
        ),
    ensures
        body.advanced(field).x == body.aim().0,
        body.advanced(field).y == body.aim().1,
        body.advanced(field).vx == body.vx,
        body.advanced(field).vy == body.vy,
{
}

/// Over a whole tick: where the velocity that the pushes have left would take
/// the entity onto a wall, onto a drain or off the grid, the entity ends the
/// tick where it began it, with that velocity turned round.
pub proof fn lemma_blocked_tick_bounces(body: Motion, field: Seq<Tile>)
    requires
        !(tile_at(
            field,
            nearest_cell(body.accelerated(field).aim().0),
            nearest_cell(body.accelerated(field).aim().1),
        ) matches Some(Tile::Empty(_))),
    ensures
        body.stepped(field).x == body.x,
        body.stepped(field).y == body.y,
        body.stepped(field).vx == negated(body.accelerated(field).vx),
        body.stepped(field).vy == negated(body.accelerated(field).vy),
{
}

/// No tick takes an entity onto a wall, onto a drain or off the grid: after a
/// tick it stands where it stood before, or on open space.
pub proof fn lemma_tick_ends_on_open_space_or_in_place(body: Motion, field: Seq<Tile>)
    ensures
        ({
            let after = body.stepped(field);
            ||| (after.x == body.x && after.y == body.y)
            ||| tile_at(field, nearest_cell(after.x), nearest_cell(after.y)) matches Some(
                Tile::Empty(_),
            )
        }),
{
}

/// Two bounces in a row leave the entity as it was.
pub proof fn lemma_two_bounces_cancel(body: Motion)
    ensures
        body.bounced().bounced() == body,
{
}

/// The entities of a world, in the order in which they were placed.
pub struct EntityContainer(pub Vec<Entity>);

impl View for EntityContainer {
    type V = Seq<Motion>;

    open spec fn view(&self) -> Seq<Motion> {
        Seq::new(self.0@.len(), |i: int| self.0@[i]@)
    }
}

/// Every one of `bodies` after one tick on `field`, each for itself.
pub open spec fn all_stepped(bodies: Seq<Motion>, field: Seq<Tile>) -> Seq<Motion> {
    Seq::new(bodies.len(), |i: int| bodies[i].stepped(field))
}

impl EntityContainer {
    pub fn new() -> (r: EntityContainer)
        ensures
            r@ == Seq::<Motion>::empty(),
    {
        EntityContainer(Vec::new())
    }

    /// One tick for every entity, in order, each on the same grid.
    pub fn simulate(&mut self, map: &Grid)
        ensures
            final(self)@ == all_stepped(old(self)@, map@),
    {
        let ghost before = self@;
        let count = self.0.len();
        for i in 0..count
            invariant
                self.0@.len() == count,
                before.len() == count,
                forall|j: int| 0 <= j < i ==> (#[trigger] self.0@[j])@ == before[j].stepped(map@),
                forall|j: int| i <= j < count ==> (#[trigger] self.0@[j])@ == before[j],
        {
            self.0[i].simulate(map);
        }
        assert(self@ =~= all_stepped(before, map@));
    }
}

} // verus!
