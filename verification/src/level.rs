//! Levels laid out on a grid of tiles.

use vstd::prelude::*;
use crate::tile::Tile;
use crate::util::{shape_height, Direction, Error, Grid, Vector};

verus! {

/// A level of `width * height` tiles. Its shape never changes; every access names a
/// tile by its coordinates and fails, rather than clamps, outside the level.
pub struct GridLevel<T> {
    tiles: Grid<T>,
}

impl<T> GridLevel<T> {
    /// The tiles, row after row.
    pub closed spec fn view(&self) -> Seq<T> {
        self.tiles@
    }

    /// The number of columns.
    pub closed spec fn width(&self) -> nat {
        self.tiles.width()
    }

    /// The number of rows.
    pub closed spec fn height(&self) -> nat {
        self.tiles.height()
    }

    /// The tile at `(x, y)`, for coordinates inside the level.
    pub open spec fn at(&self, x: int, y: int) -> T
        recommends
            self.contains(x, y),
    {
        self@[x + y * self.width()]
    }

    /// The coordinates lie inside the level.
    pub open spec fn contains(&self, x: int, y: int) -> bool {
        0 <= x < self.width() && 0 <= y < self.height()
    }

    pub fn get_width(&self) -> (w: usize)
        ensures
            w == self.width(),
    {
        self.tiles.get_width()
    }

    pub fn get_height(&self) -> (h: usize)
        ensures
            h == self.height(),
            h == shape_height(self.width(), self@.len()),
            self@.len() == self.width() * self.height(),
            self@.len() <= usize::MAX,
    {
        self.tiles.get_height()
    }

    /// The tile at `(x, y)`, or `IndexOutOfBounds` for coordinates outside the level.
    pub fn get_tile(&self, x: usize, y: usize) -> (r: Result<&T, Error>)
        ensures
            self.contains(x as int, y as int) ==> r == Ok::<&T, Error>(&self.at(x as int, y as int)),
            !self.contains(x as int, y as int) ==> r == Err::<&T, Error>(Error::IndexOutOfBounds),
    {
        self.tiles.get(x, y)
    }

    pub fn get_tile_with_vec(&self, pos: &Vector<usize>) -> (r: Result<&T, Error>)
        ensures
            self.contains(pos.x as int, pos.y as int) ==> r == Ok::<&T, Error>(
                &self.at(pos.x as int, pos.y as int),
            ),
            !self.contains(pos.x as int, pos.y as int) ==> r == Err::<&T, Error>(
                Error::IndexOutOfBounds,
            ),
    {
        self.get_tile(pos.x, pos.y)
    }

    pub fn get_tile_with_tuple(&self, pos: (usize, usize)) -> (r: Result<&T, Error>)
        ensures
            self.contains(pos.0 as int, pos.1 as int) ==> r == Ok::<&T, Error>(
                &self.at(pos.0 as int, pos.1 as int),
            ),
            !self.contains(pos.0 as int, pos.1 as int) ==> r == Err::<&T, Error>(
                Error::IndexOutOfBounds,
            ),
    {
        self.get_tile(pos.0, pos.1)
    }

    /// The tile at `(x, y)` for writing, or `IndexOutOfBounds` for coordinates outside
    /// the level. Whatever is written through the reference, the other tiles and the
    /// shape of the level stay as they are.
    pub fn get_mut_tile(&mut self, x: usize, y: usize) -> (r: Result<&mut T, Error>)
        ensures
            final(self).width() == old(self).width(),
            final(self).height() == old(self).height(),
            old(self).contains(x as int, y as int) ==> r is Ok && *r->Ok_0 == old(self).at(
                x as int,
                y as int,
            ) && final(self)@ == old(self)@.update(
                x + y * old(self).width(),
                *final(r->Ok_0),
            ),
            !old(self).contains(x as int, y as int) ==> r == Err::<&mut T, Error>(
                Error::IndexOutOfBounds,
            ) && final(self)@ == old(self)@,
    {
        self.tiles.get_mut(x, y)
    }

    pub fn get_mut_tile_with_vec(&mut self, pos: &Vector<usize>) -> (r: Result<&mut T, Error>)
        ensures
            final(self).width() == old(self).width(),
            final(self).height() == old(self).height(),
            old(self).contains(pos.x as int, pos.y as int) ==> r is Ok && *r->Ok_0 == old(
                self,
            ).at(pos.x as int, pos.y as int) && final(self)@ == old(self)@.update(
                pos.x + pos.y * old(self).width(),
                *final(r->Ok_0),
            ),
            !old(self).contains(pos.x as int, pos.y as int) ==> r == Err::<&mut T, Error>(
                Error::IndexOutOfBounds,
            ) && final(self)@ == old(self)@,
    {
        self.get_mut_tile(pos.x, pos.y)
    }

    pub fn get_mut_tile_with_tuple(&mut self, pos: (usize, usize)) -> (r: Result<&mut T, Error>)
        ensures
            final(self).width() == old(self).width(),
            final(self).height() == old(self).height(),
            old(self).contains(pos.0 as int, pos.1 as int) ==> r is Ok && *r->Ok_0 == old(
                self,
            ).at(pos.0 as int, pos.1 as int) && final(self)@ == old(self)@.update(
                pos.0 + pos.1 * old(self).width(),
                *final(r->Ok_0),
            ),
            !old(self).contains(pos.0 as int, pos.1 as int) ==> r == Err::<&mut T, Error>(
                Error::IndexOutOfBounds,
            ) && final(self)@ == old(self)@,
    {
        self.get_mut_tile(pos.0, pos.1)
    }

    /// Runs the generator `gen` on the level and hands the level back, so that
    /// generators can be chained. The level that comes back is the one that `gen` left.
    pub fn apply<F>(&mut self, gen: F) -> (r: &mut GridLevel<T>) where
        F: FnOnce(&mut GridLevel<T>),

        requires
            forall|m: &mut GridLevel<T>| *m == *old(self) ==> call_requires(gen, (m,)),
        ensures
            exists|m: &mut GridLevel<T>|
                *m == *old(self) && *final(m) == *r && #[trigger] call_ensures(gen, (m,), ()),
            *final(r) == *final(self),
    {
        gen(self);
        self
    }

    /// The tiles as one slice, row after row.
    pub fn as_slice(&self) -> (s: &[T])
        ensures
            s@ == self@,
            self@.len() == self.width() * self.height(),
    {
        self.tiles.as_slice()
    }

    /// A level without tiles.
    pub fn empty() -> (l: GridLevel<T>)
        ensures
            l.width() == 0,
            l.height() == 0,
            l@.len() == 0,
    {
        GridLevel { tiles: Grid::empty() }
    }

    /// The level `width` wide whose tiles are `tiles`, row after row, or
    /// `DimensionMismatch` where `tiles` does not divide into rows of that width.
    pub fn from_tiles(width: usize, tiles: Vec<T>) -> (r: Result<GridLevel<T>, Error>)
        ensures
            crate::util::fits_width(width as nat, tiles@.len()) ==> r is Ok && r->Ok_0@ == tiles@
                && r->Ok_0.width() == width && r->Ok_0@.len() == r->Ok_0.width()
                * r->Ok_0.height(),
            !crate::util::fits_width(width as nat, tiles@.len()) ==> r is Err && r->Err_0
                == Error::DimensionMismatch,
    {
        match Grid::from_cells(width, tiles) {
            Ok(grid) => Ok(GridLevel { tiles: grid }),
            Err(e) => Err(e),
        }
    }

    /// The level `width` wide whose tiles are `tiles`, row after row.
    pub fn with_tiles(width: usize, tiles: Vec<T>) -> (l: GridLevel<T>)
        requires
            crate::util::fits_width(width as nat, tiles@.len()),
        ensures
            l@ == tiles@,
            l.width() == width,
            l.height() == shape_height(width as nat, tiles@.len()),
            l@.len() == l.width() * l.height(),
    {
        GridLevel { tiles: Grid::with_cells(width, tiles) }
    }

    /// The tiles of the level, row after row.
    pub fn into_tiles(self) -> (tiles: Vec<T>)
        ensures
            tiles@ == self@,
            crate::util::fits_width(self.width(), tiles@.len()),
            tiles@.len() == self.width() * self.height(),
    {
        self.tiles.into_cells()
    }
}

impl<T: Default + Clone> GridLevel<T> {
    /// Overwrites every tile with a clone of `tile`.
    pub fn fill_with(&mut self, tile: T)
        ensures
            final(self).width() == old(self).width(),
            final(self).height() == old(self).height(),
            final(self)@.len() == old(self)@.len(),
            forall|i: int| 0 <= i < final(self)@.len() ==> cloned(tile, #[trigger] final(self)@[i]),
    {
        self.tiles.fill(tile);
    }

    /// A level whose every tile is a clone of the default value of `T`.
    pub fn new(width: usize, height: usize) -> (l: GridLevel<T>)
        requires
            width * height <= usize::MAX,
        ensures
            l.width() == width,
            l.height() == (if width == 0 { 0 } else { height as nat }),
            l@.len() == l.width() * l.height(),
            exists|d: T| #[trigger] call_ensures(T::default, (), d) && forall|i: int| 0 <= i < l@.len() ==> cloned(d, #[trigger] l@[i]),
    {
        GridLevel { tiles: Grid::new(width, height) }
    }

    /// A level whose every tile is a clone of `tile`.
    pub fn new_filled_with(tile: T, width: usize, height: usize) -> (l: GridLevel<T>)
        requires
            width * height <= usize::MAX,
        ensures
            l.width() == width,
            l.height() == (if width == 0 { 0 } else { height as nat }),
            l@.len() == l.width() * l.height(),
            forall|i: int| 0 <= i < l@.len() ==> cloned(tile, #[trigger] l@[i]),
    {
        GridLevel { tiles: Grid::new_filled_with(tile, width, height) }
    }
}

impl<T: Clone> Clone for GridLevel<T> {
    /// A level of the same shape with a storage of its own, each tile a clone of the
    /// tile it was made from.
    fn clone(&self) -> (l: Self)
        ensures
            l.width() == self.width(),
            l.height() == self.height(),
            l@.len() == self@.len(),
            forall|i: int| 0 <= i < self@.len() ==> cloned(#[trigger] self@[i], l@[i]),
    {
        GridLevel { tiles: self.tiles.clone() }
    }
}

/// What `add_isize_to_usize` gives: the sum of a coordinate and a step, where the
/// coordinate can take a step that way and the sum is a coordinate again. A coordinate
/// of 0 takes no step down, and the largest coordinate takes no step at all that is not
/// down.
pub open spec fn offset_coordinate(i: int, u: int) -> Option<usize> {
    if i < 0 && u != 0 {
        if u + i >= 0 {
            Some((u + i) as usize)
        } else {
            None
        }
    } else if i >= 0 && u < usize::MAX {
        if u + i <= usize::MAX {
            Some((u + i) as usize)
        } else {
            None
        }
    } else {
        None
    }
}

pub fn add_isize_to_usize(i: isize, u: usize) -> (r: Option<usize>)
    ensures
        r == offset_coordinate(i as int, u as int),
{
    if i < 0 && u != 0 {
        let back: usize = (-(i + 1)) as usize;
        if back < u {
            Some(u - back - 1)
        } else {
            None
        }
    } else if i >= 0 && u < usize::MAX {
        let forth: usize = i as usize;
        if forth <= usize::MAX - u {
            Some(u + forth)
        } else {
            None
        }
    } else {
        None
    }
}

/// The tile one step from `(x, y)` in the direction `dir` is a floor.
pub open spec fn floor_beside(level: &GridLevel<Tile>, x: int, y: int, dir: Direction) -> bool {
    let (dx, dy) = dir.offset();
    &&& offset_coordinate(dx, x) is Some
    &&& offset_coordinate(dy, y) is Some
    &&& level.contains(x + dx, y + dy)
    &&& level.at(x + dx, y + dy) is Floor
}

/// How many of the first `n` directions along the axes lead from `(x, y)` to a floor.
pub open spec fn floors_beside(level: &GridLevel<Tile>, x: int, y: int, n: nat) -> nat
    decreases n,
{
    if n == 0 {
        0
    } else {
        let rest = floors_beside(level, x, y, (n - 1) as nat);
        if n <= 4 && floor_beside(level, x, y, Direction::orthogonal()[n - 1]) {
            rest + 1
        } else {
            rest
        }
    }
}

/// Two levels with the same tiles in the same shape have the same floors beside each
/// place.
pub proof fn lemma_floors_beside_same(
    a: &GridLevel<Tile>,
    b: &GridLevel<Tile>,
    x: int,
    y: int,
    n: nat,
)
    requires
        a@ == b@,
        a.width() == b.width(),
        a.height() == b.height(),
    ensures
        floors_beside(a, x, y, n) == floors_beside(b, x, y, n),
    decreases n,
{
    if n > 0 {
        lemma_floors_beside_same(a, b, x, y, (n - 1) as nat);
    }
}

/// The tile at `(x, y)` has fewer than two floors among its four neighbours along the
/// axes.
pub open spec fn dead_end(level: &GridLevel<Tile>, x: int, y: int) -> bool {
    floors_beside(level, x, y, 4) < 2
}

pub fn is_deadend(level: &GridLevel<Tile>, x: usize, y: usize) -> (r: bool)
    ensures
        r == dead_end(level, x as int, y as int),
{
    let dirs = Direction::get_orthogonal_dirs();
    let mut paths: usize = 0;
    let mut n: usize = 0;
    while n < 4
        invariant
            n <= 4,
            dirs@ == Direction::orthogonal(),
            paths == floors_beside(level, x as int, y as int, n as nat),
            paths <= n,
        decreases 4 - n,
    {
        let vector = dirs[n].get_vec();
        n += 1;
        match (add_isize_to_usize(vector.x, x), add_isize_to_usize(vector.y, y)) {
            (Some(nx), Some(ny)) => {
                match level.get_tile_with_tuple((nx, ny)) {
                    Ok(tile) => {
                        match *tile {
                            Tile::Floor(_) => {
                                paths += 1;
                            },
                            _ => {},
                        }
                    },
                    Err(_) => {},
                }
            },
            _ => {},
        }
    }
    paths < 2
}

/// The tile that `fill_dead_end_tiles` leaves at the index `i`: a wall in place of a
/// floor that was a dead end, and what was there before everywhere else.
pub open spec fn without_dead_end(level: &GridLevel<Tile>, i: int) -> Tile {
    if fills(level, i) {
        Tile::Wall(0)
    } else {
        level@[i]
    }
}

/// The tile at the index `i` is a floor and a dead end.
pub open spec fn fills(level: &GridLevel<Tile>, i: int) -> bool {
    let w = level.width() as int;
    level@[i] is Floor && dead_end(level, i % w, i / w)
}

/// The index of the tile `pos` in a level `width` wide.
pub open spec fn flat(pos: (usize, usize), width: int) -> int {
    pos.0 + pos.1 * width
}

/// Turns every floor that is a dead end into a wall, all of them judged as the level
/// was when the call began. Says whether there was one.
pub fn fill_dead_end_tiles(level: &mut GridLevel<Tile>) -> (filled: bool)
    ensures
        final(level).width() == old(level).width(),
        final(level).height() == old(level).height(),
        final(level)@.len() == old(level)@.len(),
        forall|i: int|
            0 <= i < old(level)@.len() ==> #[trigger] final(level)@[i] == without_dead_end(
                old(level),
                i,
            ),
        filled == exists|i: int| 0 <= i < old(level)@.len() && #[trigger] fills(old(level), i),
{
    let width = level.get_width();
    let height = level.get_height();
    let mut deadends: Vec<(usize, usize)> = Vec::new();
    let mut y: usize = 0;
    while y < height
        invariant
            y <= height,
            width == level.width(),
            height == level.height(),
            *level == *old(level),
            level@.len() == width * height,
            forall|k: int|
                0 <= k < deadends@.len() ==> {
                    let p = #[trigger] deadends@[k];
                    p.0 < width && p.1 < height && flat(p, width as int) < y * width && fills(
                        level,
                        flat(p, width as int),
                    )
                },
            forall|i: int|
                0 <= i < y * width && #[trigger] fills(level, i) ==> exists|k: int|
                    0 <= k < deadends@.len() && flat(#[trigger] deadends@[k], width as int) == i,
        decreases height - y,
    {
        let mut x: usize = 0;
        while x < width
            invariant
                x <= width,
                y < height,
                width == level.width(),
                height == level.height(),
                *level == *old(level),
                level@.len() == width * height,
                forall|k: int|
                    0 <= k < deadends@.len() ==> {
                        let p = #[trigger] deadends@[k];
                        p.0 < width && p.1 < height && flat(p, width as int) < y * width + x
                            && fills(level, flat(p, width as int))
                    },
                forall|i: int|
                    0 <= i < y * width + x && #[trigger] fills(level, i) ==> exists|k: int|
                        0 <= k < deadends@.len() && flat(#[trigger] deadends@[k], width as int)
                            == i,
            decreases width - x,
        {
            proof {
                crate::util::lemma_index_in_bounds(x as int, y as int, width as int, height as int);
                crate::util::lemma_index_join(x as int, y as int, width as int);
            }
            let mut dead = false;
            if let Ok(n) = level.get_tile(x, y) {
                if let Tile::Floor(_) = *n {
                    if is_deadend(level, x, y) {
                        dead = true;
                    }
                }
            }
            assert(dead == fills(level, x + y * width));
            let ghost before = deadends@;
            if dead {
                deadends.push((x, y));
            }
            proof {
                assert forall|k: int| 0 <= k < deadends@.len() implies {
                    let p = #[trigger] deadends@[k];
                    p.0 < width && p.1 < height && flat(p, width as int) < y * width + (x + 1)
                        && fills(level, flat(p, width as int))
                } by {
                    if k < before.len() {
                        assert(deadends@[k] == before[k]);
                    }
                }
                assert forall|i: int|
                    0 <= i < y * width + (x + 1) && #[trigger] fills(level, i) implies exists|
                    k: int,
                |
                    0 <= k < deadends@.len() && flat(#[trigger] deadends@[k], width as int)
                        == i by {
                    if i < y * width + x {
                        let k = choose|k: int|
                            0 <= k < before.len() && flat(#[trigger] before[k], width as int) == i;
                        assert(deadends@[k] == before[k]);
                    } else {
                        assert(flat(deadends@[before.len() as int], width as int) == i);
                    }
                }
            }
            x += 1;
        }
        proof {
            assert((y + 1) * width == y * width + width) by (nonlinear_arith);
        }
        y += 1;
    }
    let mut filled_deadend = false;
    let mut k: usize = 0;
    let total = deadends.len();
    while k < total
        invariant
            k <= total,
            total == deadends@.len(),
            width == level.width(),
            height == level.height(),
            width == old(level).width(),
            height == old(level).height(),
            level@.len() == old(level)@.len(),
            level@.len() == width * height,
            forall|j: int|
                0 <= j < deadends@.len() ==> {
                    let p = #[trigger] deadends@[j];
                    p.0 < width && p.1 < height && fills(old(level), flat(p, width as int))
                },
            forall|i: int|
                0 <= i < level@.len() ==> #[trigger] level@[i] == old(level)@[i] || (fills(
                    old(level),
                    i,
                ) && level@[i] == Tile::Wall(0)),
            forall|j: int|
                0 <= j < k ==> level@[flat(#[trigger] deadends@[j], width as int)] == Tile::Wall(
                    0,
                ),
            filled_deadend == (k > 0),
        decreases total - k,
    {
        let (x, y) = deadends[k];
        proof {
            crate::util::lemma_index_in_bounds(x as int, y as int, width as int, height as int);
            assert(flat(deadends@[k as int], width as int) == x + y * width);
        }
        let ghost before = level@;
        if let Ok(tile) = level.get_mut_tile(x, y) {
            *tile = Tile::Wall(0);
            filled_deadend = true;
        }
        proof {
            assert(level@ == before.update(x + y * width, Tile::Wall(0)));
            assert forall|j: int| 0 <= j < k + 1 implies level@[flat(
                #[trigger] deadends@[j],
                width as int,
            )] == Tile::Wall(0) by {
                let q = deadends@[j];
                crate::util::lemma_index_in_bounds(
                    q.0 as int,
                    q.1 as int,
                    width as int,
                    height as int,
                );
            }
        }
        k += 1;
    }
    proof {
        assert(y * width == level@.len()) by (nonlinear_arith)
            requires
                y == height,
                level@.len() == width * height,
        ;
        assert forall|i: int| 0 <= i < old(level)@.len() implies #[trigger] level@[i]
            == without_dead_end(old(level), i) by {
            if fills(old(level), i) {
                let j = choose|j: int|
                    0 <= j < deadends@.len() && flat(#[trigger] deadends@[j], width as int) == i;
                assert(level@[flat(deadends@[j], width as int)] == Tile::Wall(0));
            }
        }
        if filled_deadend {
            let p = deadends@[0];
            crate::util::lemma_index_in_bounds(p.0 as int, p.1 as int, width as int, height as int);
            assert(fills(old(level), flat(p, width as int)));
        } else {
            assert forall|i: int| 0 <= i < old(level)@.len() implies !#[trigger] fills(
                old(level),
                i,
            ) by {
                if fills(old(level), i) {
                    let j = choose|j: int|
                        0 <= j < deadends@.len() && flat(#[trigger] deadends@[j], width as int)
                            == i;
                }
            }
        }
    }
    filled_deadend
}

/// The sign that stands for a tile in the text of a level.
pub open spec fn glyph(tile: Tile) -> char {
    match tile {
        Tile::Wall(_) => '#',
        Tile::Floor(_) => ' ',
        Tile::Void(_) => '*',
    }
}

/// The sign that stands for a tile in the text of a level.
pub fn tile_char(tile: &Tile) -> (c: char)
    ensures
        c == glyph(*tile),
{
    match *tile {
        Tile::Wall(_) => '#',
        Tile::Floor(_) => ' ',
        Tile::Void(_) => '*',
    }
}

/// The sign at the place `i` of the text of a level: each row of the level is a line
/// of one sign for each tile, with a line feed behind it.
pub open spec fn text_at(level: &GridLevel<Tile>, i: int) -> char {
    let line = level.width() as int + 1;
    if i % line == level.width() {
        '\n'
    } else {
        glyph(level.at(i % line, i / line))
    }
}

/// The text of a level, for a reader or a terminal.
pub fn level_text(level: &GridLevel<Tile>) -> (text: Vec<char>)
    ensures
        text@.len() == (level.width() + 1) * level.height(),
        forall|i: int| 0 <= i < text@.len() ==> #[trigger] text@[i] == text_at(level, i),
{
    let width = level.get_width();
    let height = level.get_height();
    let mut text: Vec<char> = Vec::new();
    let ghost line: int = width + 1;
    let mut y: usize = 0;
    while y < height
        invariant
            y <= height,
            width == level.width(),
            height == level.height(),
            line == width + 1,
            text@.len() == y * line,
            forall|i: int| 0 <= i < text@.len() ==> #[trigger] text@[i] == text_at(level, i),
        decreases height - y,
    {
        let mut x: usize = 0;
        while x < width
            invariant
                x <= width,
                y < height,
                width == level.width(),
                height == level.height(),
                line == width + 1,
                text@.len() == x + y * line,
                forall|i: int| 0 <= i < text@.len() ==> #[trigger] text@[i] == text_at(level, i),
            decreases width - x,
        {
            proof {
                crate::util::lemma_index_join(x as int, y as int, line);
            }
            let c = match level.get_tile(x, y) {
                Ok(tile) => tile_char(tile),
                Err(_) => '*',
            };
            text.push(c);
            x += 1;
        }
        proof {
            crate::util::lemma_index_join(width as int, y as int, line);
            assert((y + 1) * line == width + y * line + 1) by (nonlinear_arith)
                requires
                    line == width + 1,
            ;
        }
        text.push('\n');
        y += 1;
    }
    proof {
        assert(y * line == (level.width() + 1) * level.height()) by (nonlinear_arith)
            requires
                y == level.height(),
                line == level.width() + 1,
        ;
    }
    text
}

} // verus!
