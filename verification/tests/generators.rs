use dungenon::generator::room::Room;
use dungenon::generator::{DungeonGen, MazeGen, RoomGen};
use dungenon::level::{fill_dead_end_tiles, is_deadend, GridLevel};
use dungenon::tile::Tile;
use dungenon::util::Vector;

fn floors(level: &GridLevel<Tile>) -> usize {
    level.as_slice().iter().filter(|t| matches!(t, Tile::Floor(_))).count()
}

#[test]
fn rooms_overlap() {
    let room = |a: usize, b: usize, c: usize, d: usize| Room {
        min: Vector::new(a, b),
        max: Vector::new(c, d),
    };
    assert!(room(0, 0, 4, 4).overlaps(&room(4, 4, 8, 8)));
    assert!(room(4, 4, 8, 8).overlaps(&room(0, 0, 4, 4)));
    assert!(!room(0, 0, 4, 4).overlaps(&room(5, 0, 8, 4)));
    assert!(!room(0, 0, 4, 4).overlaps(&room(0, 5, 4, 8)));
    assert!(room(0, 0, 9, 9).overlaps(&room(3, 3, 4, 4)));
    assert!(room(3, 3, 4, 4).overlaps(&room(0, 0, 9, 9)));
    assert!(!room(5, 5, 6, 6).overlaps(&room(0, 0, 4, 9)));
}

#[test]
fn maze_carves_walls_only() {
    for _ in 0..16 {
        let mut level = GridLevel::new_filled_with(Tile::Wall(0), 15, 11);
        *level.get_mut_tile(0, 0).unwrap_or_else(|_| panic!("inside")) = Tile::Void(5);
        *level.get_mut_tile(14, 10).unwrap_or_else(|_| panic!("inside")) = Tile::Wall(9);
        let before = level.as_slice().to_vec();
        let mut gen = MazeGen::new(7, 5);
        assert_eq!(gen.pos, Vector::new(7, 5));
        gen.generate(&mut level);
        assert_eq!((level.get_width(), level.get_height()), (15, 11));
        assert_eq!(level.get_tile(7, 5), Ok(&Tile::Floor(0)));
        assert_eq!(level.get_tile(0, 0), Ok(&Tile::Void(5)));
        for (i, tile) in level.as_slice().iter().enumerate() {
            if *tile != before[i] {
                assert_eq!(*tile, Tile::Floor(0));
                assert!(matches!(before[i], Tile::Wall(_)));
            }
        }
        // the walk went on from where it began: a corridor, not one tile
        assert!(floors(&level) > 20);
        // a corridor never closes a ring of four
        for y in 0..10 {
            for x in 0..14 {
                let square = [(x, y), (x + 1, y), (x, y + 1), (x + 1, y + 1)];
                assert!(!square
                    .iter()
                    .all(|&(sx, sy)| level.get_tile(sx, sy) == Ok(&Tile::Floor(0))));
            }
        }
    }
}

#[test]
fn mazes_differ() {
    let mut seen: Vec<Vec<Tile>> = Vec::new();
    for _ in 0..16 {
        let mut level = GridLevel::new_filled_with(Tile::Wall(0), 15, 11);
        let mut gen = MazeGen::new(7, 5);
        gen.generate(&mut level);
        let tiles = level.into_tiles();
        if !seen.contains(&tiles) {
            seen.push(tiles);
        }
    }
    assert!(seen.len() > 1);
}

#[test]
fn maze_leaves_floor_and_void_alone() {
    let mut level = GridLevel::new_filled_with(Tile::Floor(2), 4, 4);
    let mut gen = MazeGen::new(1, 1);
    gen.generate(&mut level);
    assert_eq!(level.as_slice(), &[Tile::Floor(2); 16][..]);
    let mut void: GridLevel<Tile> = GridLevel::new(4, 4);
    gen.generate(&mut void);
    assert_eq!(void.as_slice(), &[Tile::Void(0); 16][..]);
    let mut outside = GridLevel::new_filled_with(Tile::Wall(0), 3, 3);
    let mut far = MazeGen::new(3, 0);
    far.generate(&mut outside);
    assert_eq!(outside.as_slice(), &[Tile::Wall(0); 9][..]);
}

#[test]
fn rooms_are_carved_inside_their_bounds() {
    for _ in 0..16 {
        let mut level = GridLevel::new_filled_with(Tile::Wall(0), 40, 30);
        let mut gen = RoomGen::new(2, 6, 3, 50);
        gen.generate(&mut level);
        assert_eq!((level.get_width(), level.get_height()), (40, 30));
        let carved = floors(&level);
        // one room at least: the first box meets nothing
        assert!(carved >= 1);
        for tile in level.as_slice() {
            assert!(*tile == Tile::Wall(0) || *tile == Tile::Floor(0));
        }
        // a floor tile has a room around it: a run of floors of at most 6 tiles
        for y in 0..30 {
            let mut run = 0;
            for x in 0..40 {
                if level.get_tile(x, y) == Ok(&Tile::Floor(0)) {
                    run += 1;
                    assert!(run <= 6);
                } else {
                    run = 0;
                }
            }
        }
        for x in 0..40 {
            let mut run = 0;
            for y in 0..30 {
                if level.get_tile(x, y) == Ok(&Tile::Floor(0)) {
                    run += 1;
                    assert!(run <= 6);
                } else {
                    run = 0;
                }
            }
        }
    }
}

#[test]
fn rooms_lie_all_over_the_level() {
    let mut far = false;
    let mut near = false;
    let mut sizes = [false; 7];
    for _ in 0..16 {
        let mut level = GridLevel::new_filled_with(Tile::Wall(0), 40, 30);
        let mut gen = RoomGen::new(2, 6, 3, 50);
        gen.generate(&mut level);
        for y in 0..30 {
            let mut run = 0;
            for x in 0..40 {
                if level.get_tile(x, y) == Ok(&Tile::Floor(0)) {
                    run += 1;
                    if x >= 20 && y >= 15 {
                        far = true;
                    }
                    if x < 20 && y < 15 {
                        near = true;
                    }
                } else {
                    sizes[run] = true;
                    run = 0;
                }
            }
            sizes[run] = true;
        }
    }
    assert!(far && near);
    // the floor of a room is 3 to 6 tiles long, unless the level cuts it
    assert!(sizes[3] && sizes[4] && sizes[5] && sizes[6]);
}

#[test]
fn rooms_stay_after_reset_only_in_the_level() {
    let mut level = GridLevel::new_filled_with(Tile::Wall(0), 20, 20);
    let mut gen = RoomGen::new(1, 3, 1, 10);
    gen.generate(&mut level);
    let first = level.as_slice().to_vec();
    let mut fresh = GridLevel::new_filled_with(Tile::Wall(0), 20, 20);
    let mut none = RoomGen::new(1, 3, 1, 0);
    none.generate(&mut fresh);
    assert_eq!(fresh.as_slice(), &[Tile::Wall(0); 400][..]);
    // the rooms that were placed are carved again into another level
    let mut second = GridLevel::new_filled_with(Tile::Wall(0), 20, 20);
    gen.generate(&mut second);
    for (i, tile) in first.iter().enumerate() {
        if *tile == Tile::Floor(0) {
            assert_eq!(second.as_slice()[i], Tile::Floor(0));
        }
    }
    gen.reset_rooms();
    let mut third = GridLevel::new_filled_with(Tile::Wall(0), 20, 20);
    let mut zero = RoomGen::new(1, 3, 1, 0);
    zero.generate(&mut third);
    assert_eq!(floors(&third), 0);
}

#[test]
fn dungeon_has_no_dead_end() {
    for _ in 0..8 {
        let mut level = GridLevel::new_filled_with(Tile::Wall(0), 31, 21);
        let mut gen = DungeonGen::new(MazeGen::new(15, 10), RoomGen::new(2, 5, 2, 30));
        gen.generate(&mut level);
        assert_eq!((level.get_width(), level.get_height()), (31, 21));
        for y in 0..21 {
            for x in 0..31 {
                if let Ok(&Tile::Floor(_)) = level.get_tile(x, y) {
                    assert!(!is_deadend(&level, x, y));
                }
            }
        }
        let before = level.as_slice().to_vec();
        assert!(!fill_dead_end_tiles(&mut level));
        assert_eq!(level.as_slice(), &before[..]);
        assert!(floors(&level) >= 4);
    }
}
