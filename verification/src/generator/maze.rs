//! Mazes: corridors carved into walls by a random walk that goes as deep as it can.

#![allow(deprecated)]

use vstd::prelude::*;
use rand::XorShiftRng;
use crate::generator::random::{os_rng, rng_from_os, rng_from_seed, rng_shuffle};
use crate::level::{
    add_isize_to_usize,
    dead_end,
    floors_beside,
    offset_coordinate,
    GridLevel,
};
use crate::tile::Tile;
use crate::util::{count, lemma_count_lt, lemma_index_in_bounds, Direction, Vector};

verus! {

/// The places one step along an axis from `(x, y)`, for the first `n` directions: each
/// place that both coordinates can take the step to, inside the level or not.
pub open spec fn steps(x: int, y: int, n: nat) -> Seq<Vector<usize>>
    decreases n,
{
    if n == 0 {
        Seq::empty()
    } else {
        let rest = steps(x, y, (n - 1) as nat);
        if n <= 4 {
            let (dx, dy) = Direction::orthogonal()[n - 1].offset();
            match (offset_coordinate(dx, x), offset_coordinate(dy, y)) {
                (Some(nx), Some(ny)) => rest.push(Vector { x: nx, y: ny }),
                _ => rest,
            }
        } else {
            rest
        }
    }
}

/// The tile is a wall.
pub open spec fn is_wall(tile: Tile) -> bool {
    tile is Wall
}

/// Every tile of `after` is the tile of `before` in its place, or a floor where
/// `before` has a wall.
pub open spec fn carved_from(before: Seq<Tile>, after: Seq<Tile>) -> bool {
    &&& after.len() == before.len()
    &&& forall|i: int|
        0 <= i < before.len() ==> #[trigger] after[i] == before[i] || (before[i] is Wall
            && after[i] == Tile::Floor(0))
}

/// Carves a maze from the place where it stands.
pub struct MazeGen {
    pub pos: Vector<usize>,
    rand: XorShiftRng,
}

impl MazeGen {
    /// The place where the generator stands.
    pub closed spec fn start(&self) -> Vector<usize> {
        self.pos
    }

    /// A generator that stands at `(x, y)`, its random generator seeded from the random
    /// source of the operating system, or from fixed bytes where there is none.
    pub fn new(x: usize, y: usize) -> (gen: MazeGen)
        ensures
            gen.start() == (Vector { x: x, y: y }),
    {
        let seeded = match os_rng() {
            Some(source) => {
                let mut source = source;
                rng_from_os(&mut source)
            },
            None => None,
        };
        MazeGen {
            pos: Vector::new(x, y),
            rand: match seeded {
                Some(rng) => rng,
                None => rng_from_seed([3u8; 16]),
            },
        }
    }

    /// Carves corridors into the walls of the level. A place is carved when the walk
    /// reaches it while it is a wall with fewer than two floors beside it; the walk
    /// then goes on to the places beside it, in a random order, the last one first.
    /// Nothing but walls is carved. The place where the generator stands is carved if
    /// it is such a wall when the call begins, and nothing is carved at all if it is
    /// not.
    pub fn generate(&mut self, level: &mut GridLevel<Tile>)
        ensures
            final(self).start() == old(self).start(),
            final(level).width() == old(level).width(),
            final(level).height() == old(level).height(),
            carved_from(old(level)@, final(level)@),
            old(level).contains(old(self).start().x as int, old(self).start().y as int) && old(
                level,
            ).at(old(self).start().x as int, old(self).start().y as int) is Wall && dead_end(
                old(level),
                old(self).start().x as int,
                old(self).start().y as int,
            ) ==> final(level).at(old(self).start().x as int, old(self).start().y as int)
                == Tile::Floor(0),
            !(old(level).contains(old(self).start().x as int, old(self).start().y as int) && old(
                level,
            ).at(old(self).start().x as int, old(self).start().y as int) is Wall && dead_end(
                old(level),
                old(self).start().x as int,
                old(self).start().y as int,
            )) ==> final(level)@ == old(level)@,
    {
        let width = level.get_width();
        let height = level.get_height();
        let ghost start = self.pos.x + self.pos.y * width;
        let ghost owed = old(level).contains(self.pos.x as int, self.pos.y as int) && old(
            level,
        ).at(self.pos.x as int, self.pos.y as int) is Wall && dead_end(
            old(level),
            self.pos.x as int,
            self.pos.y as int,
        );
        let mut stack: Vec<Vector<usize>> = Vec::new();
        stack.push(self.pos);
        while stack.len() > 0
            invariant
                self.pos == old(self).pos,
                width == level.width(),
                height == level.height(),
                level.width() == old(level).width(),
                level.height() == old(level).height(),
                level@.len() == width * height,
                carved_from(old(level)@, level@),
                start == self.pos.x + self.pos.y * width,
                owed == (old(level).contains(self.pos.x as int, self.pos.y as int) && old(
                    level,
                ).at(self.pos.x as int, self.pos.y as int) is Wall && dead_end(
                    old(level),
                    self.pos.x as int,
                    self.pos.y as int,
                )),
                (stack@ == seq![self.pos] && *level == *old(level)) || (owed && 0 <= start
                    < level@.len() && level@[start] == Tile::Floor(0)) || (!owed && stack@.len()
                    == 0 && level@ == old(level)@),
            decreases count(level@, |t: Tile| is_wall(t)), stack@.len(),
        {
            let ghost before = level@;
            let ghost first = stack@ == seq![self.pos] && *level == *old(level);
            let cur = match stack.pop() {
                Some(cur) => cur,
                None => Vector::new(0, 0),
            };
            proof {
                if first {
                    assert(seq![self.pos].last() == self.pos);
                    assert(cur == self.pos);
                    if owed {
                        lemma_index_in_bounds(cur.x as int, cur.y as int, width as int, height as int);
                    }
                }
            }
            let neighbours = Self::get_neighbours(level, &cur);
            let wall = match level.get_tile_with_vec(&cur) {
                Ok(tile) => {
                    match *tile {
                        Tile::Wall(_) => true,
                        _ => false,
                    }
                },
                Err(_) => false,
            };
            if wall {
                if let Some(found) = neighbours {
                    let mut found = found;
                    rng_shuffle(&mut self.rand, &mut found);
                    while found.len() > 0
                        decreases found@.len(),
                    {
                        if let Some(p) = found.pop() {
                            stack.push(p);
                        }
                    }
                    proof {
                        lemma_index_in_bounds(cur.x as int, cur.y as int, width as int, height as int);
                    }
                    if let Ok(tile) = level.get_mut_tile_with_vec(&cur) {
                        *tile = Tile::Floor(0);
                    }
                    proof {
                        let i = cur.x + cur.y * width;
                        assert(level@ == before.update(i, Tile::Floor(0)));
                        lemma_count_lt(before, level@, |t: Tile| is_wall(t), i);
                    }
                }
            }
        }
    }

    /// The places beside `pos` along the axes, or nothing where two or more of them
    /// are floors.
    fn get_neighbours(level: &GridLevel<Tile>, pos: &Vector<usize>) -> (r: Option<
        Vec<Vector<usize>>,
    >)
        ensures
            r is None <==> !dead_end(level, pos.x as int, pos.y as int),
            r is Some ==> r->Some_0@ == steps(pos.x as int, pos.y as int, 4),
    {
        let dirs = Direction::get_orthogonal_dirs();
        let mut neighbours: Vec<Vector<usize>> = Vec::new();
        let mut floors: usize = 0;
        let mut n: usize = 0;
        while n < 4
            invariant
                n <= 4,
                dirs@ == Direction::orthogonal(),
                floors == floors_beside(level, pos.x as int, pos.y as int, n as nat),
                floors <= 1,
                neighbours@ == steps(pos.x as int, pos.y as int, n as nat),
            decreases 4 - n,
        {
            let dvec = dirs[n].get_vec();
            n += 1;
            match (add_isize_to_usize(dvec.x, pos.x), add_isize_to_usize(dvec.y, pos.y)) {
                (Some(x), Some(y)) => {
                    match level.get_tile_with_tuple((x, y)) {
                        Ok(tile) => {
                            match *tile {
                                Tile::Floor(_) => {
                                    floors += 1;
                                    if floors > 1 {
                                        proof {
                                            Self::lemma_floors_grow(level, pos.x as int, pos.y as int, n as nat, 4);
                                        }
                                        return None;
                                    }
                                },
                                _ => {},
                            }
                        },
                        Err(_) => {},
                    }
                    neighbours.push(Vector::new(x, y));
                },
                _ => {},
            }
        }
        Some(neighbours)
    }

    /// More directions do not lead to fewer floors.
    proof fn lemma_floors_grow(level: &GridLevel<Tile>, x: int, y: int, n: nat, m: nat)
        requires
            n <= m,
        ensures
            floors_beside(level, x, y, n) <= floors_beside(level, x, y, m),
        decreases m,
    {
        if n < m {
            Self::lemma_floors_grow(level, x, y, n, (m - 1) as nat);
        }
    }
}

} // verus!
