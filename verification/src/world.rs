//! The grid of tiles, its averaging rule, and the world that holds the grid
//! together with the entities.

use crate::entity::{all_stepped, Entity, EntityContainer, Motion};
use crate::scalar::{
    at_most, cell_distance, clamped, count_bits, single_add, single_ceil, single_div,
    single_from_int, single_to_int, Scalar, HALF_BITS, ZERO_BITS,
};
use vstd::prelude::*;

verus! {

/// Number of columns of the grid.
pub const WIDTH: usize = 300;

/// Number of rows of the grid.
pub const HEIGHT: usize = 200;

/// One cell of the grid.
#[derive(Clone, Copy, Debug, PartialEq, Eq, Structural)]
pub enum Tile {
    /// Open space that holds a pressure.
    Empty(Scalar),
    /// Fixed and impassable; takes no part in the averaging.
    Wall,
    /// Fixed and impassable; pulls the average of its neighbours towards zero.
    Drain,
}

pub type Coordinate = isize;

/// A cell, as column and row.
pub type Point = [Coordinate; 2];

/// Whether column `x`, row `y` lies on the grid.
pub open spec fn on_grid(x: int, y: int) -> bool {
    0 <= x < WIDTH && 0 <= y < HEIGHT
}

/// Whether column `x`, row `y` lies on the outermost ring of the grid.
pub open spec fn on_border(x: int, y: int) -> bool {
    on_grid(x, y) && (x == 0 || x == WIDTH - 1 || y == 0 || y == HEIGHT - 1)
}

/// Whether `field` holds one tile for each cell of the grid, the rows one
/// after the other.
pub open spec fn covers_grid(field: Seq<Tile>) -> bool {
    field.len() == WIDTH * HEIGHT
}

/// The tile of `field` at column `x`, row `y`; `None` off the grid.
pub open spec fn tile_at(field: Seq<Tile>, x: int, y: int) -> Option<Tile> {
    if on_grid(x, y) {
        Some(field[y * WIDTH + x])
    } else {
        None
    }
}

/// Whether every cell on the border of `field` is a wall.
pub open spec fn closed_border(field: Seq<Tile>) -> bool {
    forall|x: int, y: int| on_border(x, y) ==> #[trigger] tile_at(field, x, y) == Some(Tile::Wall)
}

/// Whether every open cell of `field` holds positive zero.
pub open spec fn still(field: Seq<Tile>) -> bool {
    forall|i: int|
        0 <= i < field.len() ==> (#[trigger] field[i] matches Tile::Empty(value) ==> value.bits
            == ZERO_BITS)
}

/// The tile that a fresh grid holds at column `x`, row `y`: a wall on the
/// border, open space at pressure zero inside.
pub open spec fn blank_tile(x: int, y: int) -> Tile {
    if on_border(x, y) {
        Tile::Wall
    } else {
        Tile::Empty(Scalar { bits: ZERO_BITS })
    }
}

/// The field of a fresh grid.
pub open spec fn blank_field() -> Seq<Tile> {
    Seq::new((WIDTH * HEIGHT) as nat, |i: int| blank_tile(i % (WIDTH as int), i / (WIDTH as int)))
}

/// Column offset of cell `k` of a 3x3 block that is read row by row.
pub open spec fn block_dx(k: int) -> int {
    k % 3 - 1
}

/// Row offset of cell `k` of a 3x3 block that is read row by row.
pub open spec fn block_dy(k: int) -> int {
    k / 3 - 1
}

/// The pressures of the open cells among the first `k` cells of the 3x3 block
/// round column `x`, row `y`, added up one by one from positive zero.
pub open spec fn neighbour_sum(field: Seq<Tile>, x: int, y: int, k: nat) -> u32
    decreases k,
{
    if k == 0 {
        ZERO_BITS
    } else {
        let before = neighbour_sum(field, x, y, (k - 1) as nat);
        match tile_at(field, x + block_dx(k - 1), y + block_dy(k - 1)) {
            Some(Tile::Empty(value)) => single_add(before, value.bits),
            _ => before,
        }
    }
}

/// How many of the first `k` cells of the 3x3 block round column `x`, row `y`
/// are on the grid and no walls.
pub open spec fn neighbour_count(field: Seq<Tile>, x: int, y: int, k: nat) -> nat
    decreases k,
{
    if k == 0 {
        0
    } else {
        let before = neighbour_count(field, x, y, (k - 1) as nat);
        match tile_at(field, x + block_dx(k - 1), y + block_dy(k - 1)) {
            Some(Tile::Empty(_)) => before + 1,
            Some(Tile::Drain) => before + 1,
            _ => before,
        }
    }
}

/// The tile that one averaging pass over `field` puts at column `x`, row `y`.
/// An open cell gets the sum over its block divided by the count; walls and
/// drains stay.
pub open spec fn averaged(field: Seq<Tile>, x: int, y: int) -> Tile {
    match tile_at(field, x, y) {
        Some(Tile::Empty(_)) => Tile::Empty(
            Scalar {
                bits: single_div(
                    neighbour_sum(field, x, y, 9),
                    count_bits(neighbour_count(field, x, y, 9) as int),
                ),
            },
        ),
        Some(tile) => tile,
        None => Tile::Wall,
    }
}

/// The field after one averaging pass: every cell is worked out from `field`
/// as it was before the pass.
pub open spec fn stepped(field: Seq<Tile>) -> Seq<Tile> {
    Seq::new(
        (WIDTH * HEIGHT) as nat,
        |i: int| averaged(field, i % (WIDTH as int), i / (WIDTH as int)),
    )
}

/// The grid: `WIDTH` columns by `HEIGHT` rows of tiles.
pub struct Grid {
    tiles: Vec<Tile>,
}

impl View for Grid {
    type V = Seq<Tile>;

    closed spec fn view(&self) -> Seq<Tile> {
        self.tiles@
    }
}

impl Grid {
    /// A grid holds exactly one tile for each cell. This holds of every grid
    /// that a program can have.
    #[verifier::type_invariant]
    pub open spec fn wf(&self) -> bool {
        covers_grid(self@)
    }

    /// A grid with walls all along its border and pressure zero inside.
    pub fn new() -> (r: Grid)
        ensures
            r.wf(),
            r@ == blank_field(),
            closed_border(r@),
            still(r@),
    {
        let mut tiles: Vec<Tile> = Vec::with_capacity(WIDTH * HEIGHT);
        for y in 0..HEIGHT
            invariant
                tiles@.len() == y * WIDTH,
                forall|i: int| 0 <= i < tiles@.len() ==> #[trigger] tiles@[i] == blank_field()[i],
        {
            for x in 0..WIDTH
                invariant
                    y < HEIGHT,
                    tiles@.len() == y * WIDTH + x,
                    forall|i: int|
                        0 <= i < tiles@.len() ==> #[trigger] tiles@[i] == blank_field()[i],
            {
                if x == 0 || x == WIDTH - 1 || y == 0 || y == HEIGHT - 1 {
                    tiles.push(Tile::Wall);
                } else {
                    tiles.push(Tile::Empty(Scalar::zero()));
                }
            }
        }
        assert(tiles@ =~= blank_field());
        Grid { tiles }
    }

    fn to_index(point: Point) -> (r: Option<[usize; 2]>)
        ensures
            match r {
                Some(index) => on_grid(point[0] as int, point[1] as int) && index[0] == point[0]
                    && index[1] == point[1],
                None => !on_grid(point[0] as int, point[1] as int),
            },
    {
        if point[0] >= 0 && point[1] >= 0 && point[0] < WIDTH as isize && point[1]
            < HEIGHT as isize {
            Some([point[0] as usize, point[1] as usize])
        } else {
            None
        }
    }

    /// The tile at `point`, or `None` where `point` is off the grid.
    pub fn at(&self, point: Point) -> (r: Option<&Tile>)
        ensures
            self.wf(),
            match r {
                Some(tile) => tile_at(self@, point[0] as int, point[1] as int) == Some(*tile),
                None => tile_at(self@, point[0] as int, point[1] as int) is None,
            },
    {
        proof {
            use_type_invariant(self);
        }
        match Self::to_index(point) {
            Some(index) => Some(&self.tiles[index[1] * WIDTH + index[0]]),
            None => None,
        }
    }

    /// The tile at `point`, to be read or overwritten, or `None` where `point`
    /// is off the grid. No other tile can change through it.
    pub fn at_mut(&mut self, point: Point) -> (r: Option<&mut Tile>)
        ensures
            old(self).wf(),
            final(self).wf(),
            match r {
                Some(tile) => {
                    &&& tile_at(old(self)@, point[0] as int, point[1] as int) == Some(*tile)
                    &&& final(self)@ == old(self)@.update(
                        point[1] * WIDTH + point[0],
                        *final(tile),
                    )
                },
                None => {
                    &&& tile_at(old(self)@, point[0] as int, point[1] as int) is None
                    &&& final(self)@ == old(self)@
                },
            },
    {
        proof {
            use_type_invariant(&*self);
        }
        match Self::to_index(point) {
            Some(index) => Some(&mut self.tiles[index[1] * WIDTH + index[0]]),
            None => None,
        }
    }

    /// The tile that the averaging rule puts at `position`, worked out from
    /// the grid as it stands; `None` where `position` is off the grid.
    ///
    /// Where every open cell of the grid holds positive zero, the tile comes
    /// back as it is.
    pub fn average_tile(&self, position: Point) -> (r: Option<Tile>)
        ensures
            r == if on_grid(position[0] as int, position[1] as int) {
                Some(averaged(self@, position[0] as int, position[1] as int))
            } else {
                None
            },
            still(self@) ==> r == tile_at(self@, position[0] as int, position[1] as int),
    {
        let column = position[0];
        let row = position[1];
        let ghost px = column as int;
        let ghost py = row as int;
        match self.at(position) {
            Some(tile) => match tile {
                Tile::Empty(_) => {
                    let mut sum = Scalar::zero();
                    let mut count: u32 = 0;
                    for y in (row - 1)..(row + 2)
                        invariant
                            self.wf(),
                            px == column,
                            py == row,
                            on_grid(px, py),
                            tile_at(self@, px, py) is Some,
                            tile_at(self@, px, py)->0 is Empty,
                            sum.bits == neighbour_sum(self@, px, py, (3 * (y - py + 1)) as nat),
                            count == neighbour_count(self@, px, py, (3 * (y - py + 1)) as nat),
                            count <= 3 * (y - py + 1),
                            y > py ==> count >= 1,
                            still(self@) ==> sum.bits == ZERO_BITS,
                    {
                        for x in (column - 1)..(column + 2)
                            invariant
                                self.wf(),
                                px == column,
                                py == row,
                                on_grid(px, py),
                                py - 1 <= y <= py + 1,
                                tile_at(self@, px, py) is Some,
                                tile_at(self@, px, py)->0 is Empty,
                                sum.bits == neighbour_sum(
                                    self@,
                                    px,
                                    py,
                                    (3 * (y - py + 1) + (x - px + 1)) as nat,
                                ),
                                count == neighbour_count(
                                    self@,
                                    px,
                                    py,
                                    (3 * (y - py + 1) + (x - px + 1)) as nat,
                                ),
                                count <= 3 * (y - py + 1) + (x - px + 1),
                                y > py || (y == py && x > px) ==> count >= 1,
                                still(self@) ==> sum.bits == ZERO_BITS,
                        {
                            let ghost k = 3 * (y - py + 1) + (x - px + 1);
                            assert(block_dx(k) == x - px && block_dy(k) == y - py);
                            match self.at([x, y]) {
                                Some(neighbour) => match neighbour {
                                    Tile::Empty(value) => {
                                        sum = sum.add(*value);
                                        count += 1;
                                    },
                                    Tile::Wall => (),
                                    Tile::Drain => count += 1,
                                },
                                None => (),
                            }
                        }
                    }
                    Some(Tile::Empty(sum.div(Scalar::from_count(count))))
                },
                Tile::Wall => Some(Tile::Wall),
                Tile::Drain => Some(Tile::Drain),
            },
            None => None,
        }
    }

    /// One averaging pass over the whole grid. Every cell is worked out from
    /// the grid as it was before the pass; walls and drains stay as they are.
    pub fn simulate(&mut self)
        ensures
            final(self).wf(),
            final(self)@ == stepped(old(self)@),
            closed_border(old(self)@) ==> closed_border(final(self)@),
            still(old(self)@) ==> final(self)@ == old(self)@,
    {
        proof {
            use_type_invariant(&*self);
        }
        let mut buffer: Vec<Tile> = Vec::with_capacity(WIDTH * HEIGHT);
        for y in 0..HEIGHT
            invariant
                self.wf(),
                buffer@.len() == y * WIDTH,
                forall|i: int|
                    0 <= i < buffer@.len() ==> #[trigger] buffer@[i] == stepped(self@)[i],
                still(self@) ==> forall|i: int|
                    0 <= i < buffer@.len() ==> #[trigger] buffer@[i] == self@[i],
        {
            for x in 0..WIDTH
                invariant
                    self.wf(),
                    y < HEIGHT,
                    buffer@.len() == y * WIDTH + x,
                    forall|i: int|
                        0 <= i < buffer@.len() ==> #[trigger] buffer@[i] == stepped(self@)[i],
                    still(self@) ==> forall|i: int|
                        0 <= i < buffer@.len() ==> #[trigger] buffer@[i] == self@[i],
            {
                let tile = self.average_tile([x as Coordinate, y as Coordinate]).unwrap();
                buffer.push(tile);
            }
        }
        proof {
            assert(buffer@ =~= stepped(self@));
            if still(self@) {
                assert(buffer@ =~= self@);
            }
            lemma_step_keeps_border(self@);
        }
        self.tiles = buffer;
    }
}

/// The count that the sum round an open cell is divided by is never zero: the
/// cell counts itself. It is at most nine.
pub proof fn lemma_open_cell_counts_itself(field: Seq<Tile>, x: int, y: int)
    requires
        on_grid(x, y),
        tile_at(field, x, y)->0 is Empty,
    ensures
        1 <= neighbour_count(field, x, y, 9) <= 9,
{
    reveal_with_fuel(neighbour_count, 10);
    assert(block_dx(4) == 0 && block_dy(4) == 0);
}

/// An averaging pass leaves every wall and every drain as it is.
pub proof fn lemma_step_keeps_walls_and_drains(field: Seq<Tile>, x: int, y: int)
    requires
        covers_grid(field),
        on_grid(x, y),
        !(tile_at(field, x, y)->0 is Empty),
    ensures
        tile_at(stepped(field), x, y) == tile_at(field, x, y),
{
}

/// An averaging pass leaves open cells open: no wall and no drain appears.
pub proof fn lemma_step_keeps_open_cells(field: Seq<Tile>, x: int, y: int)
    requires
        covers_grid(field),
        on_grid(x, y),
        tile_at(field, x, y)->0 is Empty,
    ensures
        tile_at(stepped(field), x, y)->0 is Empty,
{
}

/// A border that is closed before an averaging pass is closed after it.
pub proof fn lemma_step_keeps_border(field: Seq<Tile>)
    requires
        covers_grid(field),
    ensures
        covers_grid(stepped(field)),
        closed_border(field) ==> closed_border(stepped(field)),
{
    if closed_border(field) {
        assert forall|x: int, y: int| on_border(x, y) implies #[trigger] tile_at(
            stepped(field),
            x,
            y,
        ) == Some(Tile::Wall) by {
            assert(tile_at(field, x, y) == Some(Tile::Wall));
            lemma_step_keeps_walls_and_drains(field, x, y);
        }
    }
}

/// Whether `c` lies at most `reach` away from `center`.
pub open spec fn in_reach(center: int, reach: int, c: int) -> bool {
    center - reach <= c <= center + reach
}

/// How many cells to each side of its centre a brush of radius `radius` (a
/// bit pattern) looks at: the radius and one half, rounded up to a whole
/// number and held to the range of `isize`.
pub open spec fn brush_reach(radius: u32) -> int {
    clamped(single_to_int(single_ceil(single_add(radius, HALF_BITS))))
}

/// Whether a brush of radius `radius` (a bit pattern) centred on column `cx`,
/// row `cy` paints column `x`, row `y`: the cell lies in the square that
/// reaches [`brush_reach`] cells to each side of the centre, and its distance
/// from the centre is at most the radius.
pub open spec fn in_disc(cx: int, cy: int, radius: u32, x: int, y: int) -> bool {
    let reach = brush_reach(radius);
    &&& in_reach(cx, reach, x)
    &&& in_reach(cy, reach, y)
    &&& at_most(cell_distance(cx - x, cy - y), radius)
}

/// `field` after a brush has painted `value` over the disc of radius `radius`
/// round column `cx`, row `cy`. What lies outside the disc stays.
pub open spec fn brushed(field: Seq<Tile>, value: Tile, cx: int, cy: int, radius: u32) -> Seq<
    Tile,
> {
    Seq::new(
        (WIDTH * HEIGHT) as nat,
        |i: int|
            if in_disc(cx, cy, radius, i % (WIDTH as int), i / (WIDTH as int)) {
                value
            } else {
                field[i]
            },
    )
}

/// The entity that is placed on the cell at column `x`, row `y`: at rest, in
/// the middle of the cell.
pub open spec fn placed(x: int, y: int) -> Motion {
    Motion {
        x: single_add(single_from_int(x), HALF_BITS),
        y: single_add(single_from_int(y), HALF_BITS),
        vx: ZERO_BITS,
        vy: ZERO_BITS,
    }
}

/// What a world holds at one moment: the field and the entities.
pub struct Snapshot {
    pub field: Seq<Tile>,
    pub bodies: Seq<Motion>,
}

/// The world one tick later: the field is averaged first, and the entities
/// then move on the averaged field.
pub open spec fn ticked(now: Snapshot) -> Snapshot {
    Snapshot { field: stepped(now.field), bodies: all_stepped(now.bodies, stepped(now.field)) }
}

/// The world `ticks` ticks later, with no edits in between.
pub open spec fn run(start: Snapshot, ticks: nat) -> Snapshot
    decreases ticks,
{
    if ticks == 0 {
        start
    } else {
        ticked(run(start, (ticks - 1) as nat))
    }
}

/// The grid and the entities that live on it.
pub struct World {
    map: Grid,
    pub entities: EntityContainer,
}

impl View for World {
    type V = Snapshot;

    closed spec fn view(&self) -> Snapshot {
        Snapshot { field: self.map@, bodies: self.entities@ }
    }
}

impl World {
    /// The grid of a world holds one tile for each cell. This holds of every
    /// world that a program can have.
    pub open spec fn wf(&self) -> bool {
        covers_grid(self@.field)
    }

    /// A world with a fresh grid and no entities.
    pub fn new() -> (r: World)
        ensures
            r.wf(),
            r@.field == blank_field(),
            r@.bodies == Seq::<Motion>::empty(),
            closed_border(r@.field),
            still(r@.field),
    {
        World { map: Grid::new(), entities: EntityContainer::new() }
    }

    /// The tile at `point`, or `None` where `point` is off the grid.
    pub fn at(&self, point: Point) -> (r: Option<&Tile>)
        ensures
            self.wf(),
            match r {
                Some(tile) => tile_at(self@.field, point[0] as int, point[1] as int) == Some(
                    *tile,
                ),
                None => tile_at(self@.field, point[0] as int, point[1] as int) is None,
            },
    {
        self.map.at(point)
    }

    /// The tile at `point`, to be read or overwritten, or `None` where `point`
    /// is off the grid. No other tile and no entity can change through it.
    pub fn at_mut(&mut self, point: Point) -> (r: Option<&mut Tile>)
        ensures
            old(self).wf(),
            final(self).wf(),
            final(self)@.bodies == old(self)@.bodies,
            match r {
                Some(tile) => {
                    &&& tile_at(old(self)@.field, point[0] as int, point[1] as int) == Some(*tile)
                    &&& final(self)@.field == old(self)@.field.update(
                        point[1] * WIDTH + point[0],
                        *final(tile),
                    )
                },
                None => {
                    &&& tile_at(old(self)@.field, point[0] as int, point[1] as int) is None
                    &&& final(self)@.field == old(self)@.field
                },
            },
    {
        self.map.at_mut(point)
    }

    /// Adds an entity at rest in the middle of the cell at `point`, behind
    /// those that are there. The grid stays as it is.
    pub fn place_entity(&mut self, point: Point)
        ensures
            final(self).wf(),
            final(self)@.field == old(self)@.field,
            final(self)@.bodies == old(self)@.bodies.push(
                placed(point[0] as int, point[1] as int),
            ),
    {
        proof {
            use_type_invariant(&self.map);
        }
        let entity_point = [
            Scalar::from_coordinate(point[0]).add(Scalar::half()),
            Scalar::from_coordinate(point[1]).add(Scalar::half()),
        ];
        self.entities.0.push(Entity::new(entity_point, [Scalar::zero(), Scalar::zero()]));
        assert(self@.bodies =~= old(self)@.bodies.push(placed(point[0] as int, point[1] as int)));
    }

    /// How many cells to each side of its centre a brush of radius `radius`
    /// looks at: see [`brush_reach`].
    pub fn brush_reach(radius: Scalar) -> (r: Coordinate)
        ensures
            r == brush_reach(radius.bits),
    {
        radius.add(Scalar::half()).ceil().to_coordinate()
    }

    /// The coordinates from 0 up to `limit` that lie at most `reach` away from
    /// `center`, as the first of them and the one after the last.
    fn span(center: Coordinate, reach: Coordinate, limit: usize) -> (r: (usize, usize))
        requires
            limit <= WIDTH,
        ensures
            r.0 <= r.1 <= limit,
            forall|c: int|
                0 <= c < limit ==> (#[trigger] in_reach(center as int, reach as int, c) <==> r.0
                    <= c < r.1),
    {
        let low: i128 = center as i128 - reach as i128;
        let high: i128 = center as i128 + reach as i128 + 1;
        if high <= low || high <= 0 || low >= limit as i128 {
            (0, 0)
        } else {
            let first: usize = if low < 0 {
                0
            } else {
                low as usize
            };
            let last: usize = if high > limit as i128 {
                limit
            } else {
                high as usize
            };
            (first, last)
        }
    }

    /// Paints `value` over every cell of the grid whose distance from
    /// `position` is at most `radius`. Only the square that reaches
    /// `radius + 0.5`, rounded up, to each side of `position` is looked at;
    /// what of it lies off the grid is passed over. The border is painted
    /// over like any other cell. The entities stay as they are.
    pub fn brush(&mut self, value: Tile, position: Point, radius: Scalar)
        ensures
            final(self).wf(),
            final(self)@.field == brushed(
                old(self)@.field,
                value,
                position[0] as int,
                position[1] as int,
                radius.bits,
            ),
            final(self)@.bodies == old(self)@.bodies,
    {
        let cx = position[0];
        let cy = position[1];
        let map_radius = Self::brush_reach(radius);
        let columns = Self::span(cx, map_radius, WIDTH);
        let rows = Self::span(cy, map_radius, HEIGHT);
        let ghost before = self@;
        proof {
            use_type_invariant(&self.map);
        }
        for y in rows.0..rows.1
            invariant
                self.wf(),
                covers_grid(before.field),
                self@.bodies == before.bodies,
                map_radius == brush_reach(radius.bits),
                columns.0 <= columns.1 <= WIDTH,
                rows.0 <= rows.1 <= HEIGHT,
                forall|c: int|
                    0 <= c < WIDTH ==> (#[trigger] in_reach(cx as int, map_radius as int, c)
                        <==> columns.0 <= c < columns.1),
                forall|c: int|
                    0 <= c < HEIGHT ==> (#[trigger] in_reach(cy as int, map_radius as int, c)
                        <==> rows.0 <= c < rows.1),
                forall|i: int|
                    0 <= i < WIDTH * HEIGHT ==> #[trigger] self@.field[i] == if i / (WIDTH as int)
                        < y && in_disc(
                        cx as int,
                        cy as int,
                        radius.bits,
                        i % (WIDTH as int),
                        i / (WIDTH as int),
                    ) {
                        value
                    } else {
                        before.field[i]
                    },
        {
            for x in columns.0..columns.1
                invariant
                    self.wf(),
                    covers_grid(before.field),
                    self@.bodies == before.bodies,
                    map_radius == brush_reach(radius.bits),
                    columns.0 <= columns.1 <= WIDTH,
                    rows.0 <= y < rows.1,
                    rows.1 <= HEIGHT,
                    forall|c: int|
                        0 <= c < WIDTH ==> (#[trigger] in_reach(cx as int, map_radius as int, c)
                            <==> columns.0 <= c < columns.1),
                    forall|c: int|
                        0 <= c < HEIGHT ==> (#[trigger] in_reach(cy as int, map_radius as int, c)
                            <==> rows.0 <= c < rows.1),
                    forall|i: int|
                        0 <= i < WIDTH * HEIGHT ==> #[trigger] self@.field[i] == if (i / (
                        WIDTH as int) < y || (i / (WIDTH as int) == y && i % (WIDTH as int) < x))
                            && in_disc(
                            cx as int,
                            cy as int,
                            radius.bits,
                            i % (WIDTH as int),
                            i / (WIDTH as int),
                        ) {
                            value
                        } else {
                            before.field[i]
                        },
            {
                assert(in_reach(cx as int, map_radius as int, x as int));
                assert(in_reach(cy as int, map_radius as int, y as int));
                let across = cx - x as Coordinate;
                let down = cy - y as Coordinate;
                if Scalar::cell_distance(across, down).le(radius) {
                    match self.at_mut([x as Coordinate, y as Coordinate]) {
                        Some(tile) => *tile = value,
                        None => (),
                    }
                }
            }
        }
        assert(self@.field =~= brushed(before.field, value, cx as int, cy as int, radius.bits));
    }

    /// One tick: the grid is averaged, then every entity moves on the grid as
    /// the averaging has left it.
    pub fn simulate(&mut self)
        ensures
            final(self).wf(),
            final(self)@ == ticked(old(self)@),
            final(self)@.field == stepped(old(self)@.field),
            final(self)@.bodies == all_stepped(old(self)@.bodies, final(self)@.field),
            closed_border(old(self)@.field) ==> closed_border(final(self)@.field),
            still(old(self)@.field) ==> final(self)@.field == old(self)@.field,
    {
        self.map.simulate();
        self.entities.simulate(&self.map);
    }
}

/// However many ticks pass, a grid that started with a closed border has a
/// closed border: every cell of the outermost ring is still a wall.
pub proof fn lemma_border_stays_closed(start: Snapshot, ticks: nat)
    requires
        covers_grid(start.field),
        closed_border(start.field),
    ensures
        covers_grid(run(start, ticks).field),
        closed_border(run(start, ticks).field),
    decreases ticks,
{
    if ticks > 0 {
        lemma_border_stays_closed(start, (ticks - 1) as nat);
        lemma_step_keeps_border(run(start, (ticks - 1) as nat).field);
    }
}

/// Two worlds that hold the same field and the same entities hold the same
/// field and the same entities after any number of ticks: a tick depends on
/// nothing but what the world holds.
pub proof fn lemma_run_is_determined(a: Snapshot, b: Snapshot, ticks: nat)
    requires
        a.field == b.field,
        a.bodies == b.bodies,
    ensures
        run(a, ticks) == run(b, ticks),
{
}

/// Within a tick every entity moves on the field as the averaging of that
/// same tick has left it, never on the field from before the averaging.
pub proof fn lemma_entities_move_on_averaged_field(now: Snapshot, i: int)
    requires
        0 <= i < now.bodies.len(),
    ensures
        ticked(now).bodies.len() == now.bodies.len(),
        ticked(now).bodies[i] == now.bodies[i].stepped(ticked(now).field),
{
}

} // verus!
