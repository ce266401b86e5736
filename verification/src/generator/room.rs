//! Rooms: boxes of floor at random places that keep their distance from each other.

#![allow(deprecated)]

use vstd::prelude::*;
use rand::XorShiftRng;
use crate::generator::random::{os_rng, rng_from_os, rng_from_seed, rng_range};
use crate::level::GridLevel;
use crate::tile::Tile;
use crate::util::{lemma_index_in_bounds, lemma_index_join, lemma_index_split, Vector};

verus! {

/// A box of tiles, both corners included. The box of a room is its floor and the
/// distance that it keeps, which lies behind its floor in both directions.
#[derive(Clone, Copy, Debug, PartialEq, Eq, Structural)]
pub struct Room {
    pub min: Vector<usize>,
    pub max: Vector<usize>,
}

impl Room {
    /// The two boxes share a tile.
    pub open spec fn meets(&self, room: &Room) -> bool {
        self.min.x <= room.max.x && room.min.x <= self.max.x && self.min.y <= room.max.y
            && room.min.y <= self.max.y
    }

    /// The tile `(x, y)` belongs to the floor of a room that keeps the distance
    /// `distance`.
    pub open spec fn covers(&self, distance: int, x: int, y: int) -> bool {
        self.min.x <= x <= self.max.x - distance && self.min.y <= y <= self.max.y - distance
    }

    pub fn overlaps(&self, room: &Room) -> (r: bool)
        ensures
            r == self.meets(room),
    {
        self.min.x <= room.max.x && room.min.x <= self.max.x && self.min.y <= room.max.y
            && room.min.y <= self.max.y
    }
}

/// One of the first `n` rooms has the tile at the index `i` of a level `width` wide on
/// its floor.
pub open spec fn on_floor(rooms: Seq<Room>, distance: int, n: int, width: int, i: int) -> bool {
    exists|k: int| 0 <= k < n && (#[trigger] rooms[k]).covers(distance, i % width, i / width)
}

/// The room `room` could have come out of `generate_box`: its lower corner lies in a
/// level of `width` by `height` tiles, and its floor is at least `min_size` and less
/// than `max_size` tiles longer than one tile in both directions.
pub open spec fn is_box(
    room: Room,
    width: int,
    height: int,
    min_size: int,
    max_size: int,
    distance: int,
) -> bool {
    &&& 0 <= room.min.x < width
    &&& 0 <= room.min.y < height
    &&& room.min.x + min_size + distance <= room.max.x < room.min.x + max_size + distance
    &&& room.min.y + min_size + distance <= room.max.y < room.min.y + max_size + distance
}

/// Turns the floor of one room into floor tiles, as far as it lies inside the level.
fn carve_room(level: &mut GridLevel<Tile>, room: &Room, distance: usize)
    ensures
        final(level).width() == old(level).width(),
        final(level).height() == old(level).height(),
        final(level)@.len() == old(level)@.len(),
        forall|i: int|
            0 <= i < old(level)@.len() ==> #[trigger] final(level)@[i] == (if room.covers(
                distance as int,
                i % (old(level).width() as int),
                i / (old(level).width() as int),
            ) {
                Tile::Floor(0)
            } else {
                old(level)@[i]
            }),
{
    let width = level.get_width();
    let height = level.get_height();
    if room.max.x < distance || room.max.y < distance || width == 0 {
        return ;
    }
    let end_x = room.max.x - distance;
    let end_y = room.max.y - distance;
    let stop_x = if end_x < width {
        end_x + 1
    } else {
        width
    };
    let stop_y = if end_y < height {
        end_y + 1
    } else {
        height
    };
    let ghost w = width as int;
    let ghost d = distance as int;
    let mut y: usize = room.min.y;
    while y < stop_y
        invariant
            room.min.y <= y,
            stop_y <= height,
            stop_x <= width,
            0 < width,
            stop_x == (if end_x < width { end_x + 1 } else { width as int }),
            stop_y == (if end_y < height { end_y + 1 } else { height as int }),
            end_x == room.max.x - distance,
            end_y == room.max.y - distance,
            w == width,
            d == distance,
            level.width() == width,
            level.height() == height,
            level@.len() == old(level)@.len(),
            level@.len() == width * height,
            forall|i: int|
                0 <= i < level@.len() ==> #[trigger] level@[i] == (if room.covers(d, i % w, i / w)
                    && i / w < y {
                    Tile::Floor(0)
                } else {
                    old(level)@[i]
                }),
        decreases stop_y - y,
    {
        let mut x: usize = room.min.x;
        while x < stop_x
            invariant
                room.min.x <= x,
                room.min.y <= y < stop_y,
                stop_y <= height,
                stop_x <= width,
                0 < width,
                stop_x == (if end_x < width { end_x + 1 } else { width as int }),
                stop_y == (if end_y < height { end_y + 1 } else { height as int }),
                end_x == room.max.x - distance,
                end_y == room.max.y - distance,
                w == width,
                d == distance,
                level.width() == width,
                level.height() == height,
                level@.len() == old(level)@.len(),
                level@.len() == width * height,
                forall|i: int|
                    0 <= i < level@.len() ==> #[trigger] level@[i] == (if room.covers(
                        d,
                        i % w,
                        i / w,
                    ) && (i / w < y || (i / w == y && i % w < x)) {
                        Tile::Floor(0)
                    } else {
                        old(level)@[i]
                    }),
            decreases stop_x - x,
        {
            let ghost before = level@;
            proof {
                lemma_index_in_bounds(x as int, y as int, w, height as int);
                lemma_index_join(x as int, y as int, w);
            }
            if let Ok(tile) = level.get_mut_tile(x, y) {
                *tile = Tile::Floor(0);
            }
            proof {
                assert(level@ == before.update(x + y * w, Tile::Floor(0)));
                assert forall|i: int| 0 <= i < level@.len() implies #[trigger] level@[i] == (
                if room.covers(d, i % w, i / w) && (i / w < y || (i / w == y && i % w < x + 1)) {
                    Tile::Floor(0)
                } else {
                    old(level)@[i]
                }) by {
                    lemma_index_split(i, w, height as int);
                }
            }
            x += 1;
        }
        proof {
            assert forall|i: int| 0 <= i < level@.len() implies #[trigger] level@[i] == (
            if room.covers(d, i % w, i / w) && i / w < y + 1 {
                Tile::Floor(0)
            } else {
                old(level)@[i]
            }) by {
                lemma_index_split(i, w, height as int);
            }
        }
        y += 1;
    }
    proof {
        assert forall|i: int| 0 <= i < old(level)@.len() implies #[trigger] level@[i] == (
        if room.covers(d, i % w, i / w) {
            Tile::Floor(0)
        } else {
            old(level)@[i]
        }) by {
            lemma_index_split(i, w, height as int);
        }
    }
}

/// Places rooms and carves them. It remembers the rooms that it placed, so that rooms
/// of a later call keep their distance from them too.
pub struct RoomGen {
    rand_x: XorShiftRng,
    rand_y: XorShiftRng,
    max_room_size: usize,
    min_room_size: usize,
    room_distance: usize,
    attempts: u64,
    rooms: Vec<Room>,
}

impl RoomGen {
    /// The rooms that were placed, the first one first.
    pub closed spec fn rooms(&self) -> Seq<Room> {
        self.rooms@
    }

    /// The least that the floor of a room is longer than one tile.
    pub closed spec fn min_size(&self) -> usize {
        self.min_room_size
    }

    /// The bound below which the floor of a room is longer than one tile.
    pub closed spec fn max_size(&self) -> usize {
        self.max_room_size
    }

    /// The tiles that a room keeps free behind its floor.
    pub closed spec fn distance(&self) -> usize {
        self.room_distance
    }

    /// How many rooms a call of `generate` tries to place.
    pub closed spec fn attempts(&self) -> u64 {
        self.attempts
    }

    /// The generator can place rooms in the level: the level has tiles, there is a
    /// size for a room to have, and no corner of a room leaves the range of a
    /// coordinate.
    pub open spec fn fits(&self, level: &GridLevel<Tile>) -> bool {
        &&& level.width() > 0
        &&& level.height() > 0
        &&& self.min_size() < self.max_size()
        &&& level.width() + self.max_size() + self.distance() <= usize::MAX
        &&& level.height() + self.max_size() + self.distance() <= usize::MAX
    }

    /// A generator without rooms, its two random generators seeded from the random
    /// source of the operating system, or from fixed bytes where there is none.
    pub fn new(min_room_size: usize, max_room_size: usize, room_distance: usize, attempts: u64) -> (gen:
        RoomGen)
        ensures
            gen.rooms() == Seq::<Room>::empty(),
            gen.min_size() == min_room_size,
            gen.max_size() == max_room_size,
            gen.distance() == room_distance,
            gen.attempts() == attempts,
    {
        let mut source = os_rng();
        let rand_x = match &mut source {
            Some(rng) => rng_from_os(rng),
            None => None,
        };
        let rand_y = match &mut source {
            Some(rng) => rng_from_os(rng),
            None => None,
        };
        RoomGen {
            rand_x: match rand_x {
                Some(rng) => rng,
                None => rng_from_seed([1u8; 16]),
            },
            rand_y: match rand_y {
                Some(rng) => rng,
                None => rng_from_seed([2u8; 16]),
            },
            max_room_size: max_room_size,
            min_room_size: min_room_size,
            room_distance: room_distance,
            attempts: attempts,
            rooms: Vec::new(),
        }
    }

    /// Tries `attempts` times to place a room: each time it draws a box and keeps it
    /// if it meets none of the rooms that are there. Then it carves the floor of every
    /// room into the level.
    pub fn generate(&mut self, level: &mut GridLevel<Tile>)
        requires
            old(self).fits(old(level)),
        ensures
            final(self).min_size() == old(self).min_size(),
            final(self).max_size() == old(self).max_size(),
            final(self).distance() == old(self).distance(),
            final(self).attempts() == old(self).attempts(),
            final(level).width() == old(level).width(),
            final(level).height() == old(level).height(),
            final(level)@.len() == old(level)@.len(),
            old(self).rooms().len() <= final(self).rooms().len() <= old(self).rooms().len() + old(
                self,
            ).attempts(),
            forall|k: int|
                0 <= k < old(self).rooms().len() ==> #[trigger] final(self).rooms()[k] == old(
                    self,
                ).rooms()[k],
            forall|k: int|
                old(self).rooms().len() <= k < final(self).rooms().len() ==> is_box(
                    #[trigger] final(self).rooms()[k],
                    old(level).width() as int,
                    old(level).height() as int,
                    old(self).min_size() as int,
                    old(self).max_size() as int,
                    old(self).distance() as int,
                ),
            forall|j: int, k: int|
                #![trigger final(self).rooms()[k], final(self).rooms()[j]]
                0 <= j < k < final(self).rooms().len() && old(self).rooms().len() <= k
                    ==> !final(self).rooms()[k].meets(&final(self).rooms()[j]),
            forall|i: int|
                0 <= i < old(level)@.len() ==> #[trigger] final(level)@[i] == (if on_floor(
                    final(self).rooms(),
                    old(self).distance() as int,
                    final(self).rooms().len() as int,
                    old(level).width() as int,
                    i,
                ) {
                    Tile::Floor(0)
                } else {
                    old(level)@[i]
                }),
    {
        let mut tried: u64 = 0;
        while tried < self.attempts
            invariant
                tried <= self.attempts,
                self.fits(level),
                *level == *old(level),
                self.min_room_size == old(self).min_room_size,
                self.max_room_size == old(self).max_room_size,
                self.room_distance == old(self).room_distance,
                self.attempts == old(self).attempts,
                old(self).rooms@.len() <= self.rooms@.len() <= old(self).rooms@.len() + tried,
                forall|k: int|
                    0 <= k < old(self).rooms@.len() ==> #[trigger] self.rooms@[k] == old(
                        self,
                    ).rooms@[k],
                forall|k: int|
                    old(self).rooms@.len() <= k < self.rooms@.len() ==> is_box(
                        #[trigger] self.rooms@[k],
                        level.width() as int,
                        level.height() as int,
                        self.min_room_size as int,
                        self.max_room_size as int,
                        self.room_distance as int,
                    ),
                forall|j: int, k: int|
                    #![trigger self.rooms@[k], self.rooms@[j]]
                    0 <= j < k < self.rooms@.len() && old(self).rooms@.len() <= k
                        ==> !self.rooms@[k].meets(&self.rooms@[j]),
            decreases self.attempts - tried,
        {
            let room = self.generate_box(level);
            let fits = !self.check_collisions(&room);
            if fits {
                self.rooms.push(room);
            }
            tried += 1;
        }
        self.carve(level);
    }

    /// Forgets the rooms that were placed.
    pub fn reset_rooms(&mut self)
        ensures
            final(self).rooms() == Seq::<Room>::empty(),
            final(self).min_size() == old(self).min_size(),
            final(self).max_size() == old(self).max_size(),
            final(self).distance() == old(self).distance(),
            final(self).attempts() == old(self).attempts(),
    {
        self.rooms = Vec::new();
    }

    /// Draws a box: a lower corner inside the level, and a size.
    fn generate_box(&mut self, level: &GridLevel<Tile>) -> (room: Room)
        requires
            old(self).fits(level),
        ensures
            final(self).rooms == old(self).rooms,
            final(self).min_room_size == old(self).min_room_size,
            final(self).max_room_size == old(self).max_room_size,
            final(self).room_distance == old(self).room_distance,
            final(self).attempts == old(self).attempts,
            is_box(
                room,
                level.width() as int,
                level.height() as int,
                old(self).min_room_size as int,
                old(self).max_room_size as int,
                old(self).room_distance as int,
            ),
    {
        let width = level.get_width();
        let height = level.get_height();
        let min_x = rng_range(&mut self.rand_x, 0, width);
        let min_y = rng_range(&mut self.rand_y, 0, height);
        let size_x = rng_range(&mut self.rand_x, self.min_room_size, self.max_room_size);
        let size_y = rng_range(&mut self.rand_y, self.min_room_size, self.max_room_size);
        let min = Vector::new(min_x, min_y);
        let mut max = Vector::new(size_x, size_y);
        max.x += min.x;
        max.y += min.y;
        max.x += self.room_distance;
        max.y += self.room_distance;
        Room { min: min, max: max }
    }

    /// The box meets one of the rooms that were placed.
    fn check_collisions(&self, room: &Room) -> (r: bool)
        ensures
            r == exists|k: int| 0 <= k < self.rooms@.len() && room.meets(&#[trigger] self.rooms@[k]),
    {
        let mut k: usize = 0;
        while k < self.rooms.len()
            invariant
                k <= self.rooms@.len(),
                forall|j: int| 0 <= j < k ==> !room.meets(&#[trigger] self.rooms@[j]),
            decreases self.rooms@.len() - k,
        {
            if room.overlaps(&self.rooms[k]) {
                return true;
            }
            k += 1;
        }
        false
    }

    /// Turns the floor of every room into floor tiles.
    fn carve(&self, level: &mut GridLevel<Tile>)
        ensures
            final(level).width() == old(level).width(),
            final(level).height() == old(level).height(),
            final(level)@.len() == old(level)@.len(),
            forall|i: int|
                0 <= i < old(level)@.len() ==> #[trigger] final(level)@[i] == (if on_floor(
                    self.rooms@,
                    self.room_distance as int,
                    self.rooms@.len() as int,
                    old(level).width() as int,
                    i,
                ) {
                    Tile::Floor(0)
                } else {
                    old(level)@[i]
                }),
    {
        let room_distance = self.room_distance;
        let ghost w = level.width() as int;
        let ghost d = room_distance as int;
        let mut k: usize = 0;
        while k < self.rooms.len()
            invariant
                k <= self.rooms@.len(),
                w == old(level).width(),
                d == self.room_distance,
                room_distance == self.room_distance,
                level.width() == old(level).width(),
                level.height() == old(level).height(),
                level@.len() == old(level)@.len(),
                forall|i: int|
                    0 <= i < old(level)@.len() ==> #[trigger] level@[i] == (if on_floor(
                        self.rooms@,
                        d,
                        k as int,
                        w,
                        i,
                    ) {
                        Tile::Floor(0)
                    } else {
                        old(level)@[i]
                    }),
            decreases self.rooms@.len() - k,
        {
            let ghost before = level@;
            carve_room(level, &self.rooms[k], room_distance);
            proof {
                assert forall|i: int| 0 <= i < old(level)@.len() implies #[trigger] level@[i] == (
                if on_floor(self.rooms@, d, k + 1, w, i) {
                    Tile::Floor(0)
                } else {
                    old(level)@[i]
                }) by {
                    if self.rooms@[k as int].covers(d, i % w, i / w) {
                        assert(on_floor(self.rooms@, d, k + 1, w, i));
                    } else if on_floor(self.rooms@, d, k as int, w, i) {
                        let j = choose|j: int|
                            0 <= j < k && (#[trigger] self.rooms@[j]).covers(d, i % w, i / w);
                        assert(on_floor(self.rooms@, d, k + 1, w, i));
                    } else {
                        if on_floor(self.rooms@, d, k + 1, w, i) {
                            let j = choose|j: int|
                                0 <= j < k + 1 && (#[trigger] self.rooms@[j]).covers(
                                    d,
                                    i % w,
                                    i / w,
                                );
                            assert(j < k);
                            assert(false);
                        }
                    }
                }
            }
            k += 1;
        }
    }
}

} // verus!
