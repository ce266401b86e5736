//! Dungeons: a maze, rooms carved over it, and no corridor that leads nowhere.

use vstd::prelude::*;
use crate::generator::maze::MazeGen;
use crate::generator::room::RoomGen;
use crate::level::{
    fill_dead_end_tiles,
    fills,
    lemma_floors_beside_same,
    without_dead_end,
    GridLevel,
};
use crate::tile::Tile;
use crate::util::{count, lemma_count_lt};

verus! {

/// The tile is a floor.
pub open spec fn is_floor(tile: Tile) -> bool {
    tile is Floor
}

/// Every tile of `after` is the tile of `before` in its place, a carved floor or a
/// filled wall.
pub open spec fn rebuilt_from(before: Seq<Tile>, after: Seq<Tile>) -> bool {
    &&& after.len() == before.len()
    &&& forall|i: int|
        0 <= i < before.len() ==> #[trigger] after[i] == before[i] || after[i] == Tile::Floor(0)
            || after[i] == Tile::Wall(0)
}

/// Builds a dungeon with a maze generator and a room generator.
pub struct DungeonGen {
    mazegen: MazeGen,
    roomgen: RoomGen,
}

impl DungeonGen {
    /// The generator of the maze.
    pub closed spec fn maze(&self) -> MazeGen {
        self.mazegen
    }

    /// The generator of the rooms.
    pub closed spec fn rooms(&self) -> RoomGen {
        self.roomgen
    }

    pub fn new(mazegen: MazeGen, roomgen: RoomGen) -> (gen: DungeonGen)
        ensures
            gen.maze() == mazegen,
            gen.rooms() == roomgen,
    {
        DungeonGen { mazegen: mazegen, roomgen: roomgen }
    }

    /// Carves the maze, then the rooms, and then fills dead ends until none is left:
    /// afterwards no floor of the level has fewer than two floors beside it.
    pub fn generate(&mut self, level: &mut GridLevel<Tile>)
        requires
            old(self).rooms().fits(old(level)),
        ensures
            final(level).width() == old(level).width(),
            final(level).height() == old(level).height(),
            rebuilt_from(old(level)@, final(level)@),
            forall|i: int| 0 <= i < final(level)@.len() ==> !#[trigger] fills(final(level), i),
    {
        self.mazegen.generate(level);
        self.roomgen.generate(level);
        loop
            invariant
                level.width() == old(level).width(),
                level.height() == old(level).height(),
                rebuilt_from(old(level)@, level@),
            ensures
                forall|i: int| 0 <= i < level@.len() ==> !#[trigger] fills(level, i),
            decreases count(level@, |t: Tile| is_floor(t)),
        {
            let ghost before = *level;
            let filled = fill_dead_end_tiles(level);
            if !filled {
                proof {
                    assert forall|i: int| 0 <= i < level@.len() implies level@[i] == before@[i] by {
                        assert(!fills(&before, i));
                        assert(level@[i] == without_dead_end(&before, i));
                    }
                    assert(level@ =~= before@);
                    assert forall|i: int| 0 <= i < level@.len() implies !#[trigger] fills(
                        level,
                        i,
                    ) by {
                        let w = level.width() as int;
                        lemma_floors_beside_same(level, &before, i % w, i / w, 4);
                        assert(!fills(&before, i));
                    }
                }
                break ;
            }
            proof {
                let i = choose|i: int| 0 <= i < before@.len() && #[trigger] fills(&before, i);
                assert forall|j: int| 0 <= j < level@.len() && is_floor(
                    #[trigger] level@[j],
                ) implies is_floor(before@[j]) by {
                    assert(level@[j] == without_dead_end(&before, j));
                }
                assert(level@[i] == without_dead_end(&before, i));
                lemma_count_lt(before@, level@, |t: Tile| is_floor(t), i);
                assert forall|j: int| 0 <= j < level@.len() implies #[trigger] level@[j] == old(
                    level,
                )@[j] || level@[j] == Tile::Floor(0) || level@[j] == Tile::Wall(0) by {
                    assert(level@[j] == without_dead_end(&before, j));
                }
            }
        }
    }
}

} // verus!
