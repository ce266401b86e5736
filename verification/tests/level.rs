use dungenon::level::{
    add_isize_to_usize, fill_dead_end_tiles, is_deadend, level_text, tile_char, GridLevel,
};
use dungenon::tile::{Faction, Tile};
use dungenon::util::{Direction, Error, Grid, Vector};

fn tiles_of(width: usize, rows: &[Tile]) -> GridLevel<Tile> {
    match GridLevel::from_tiles(width, rows.to_vec()) {
        Ok(level) => level,
        Err(_) => panic!("the tiles do not fill the rows"),
    }
}

#[test]
fn new_grid_holds_defaults() {
    let grid: Grid<Tile> = Grid::new(3, 2);
    assert_eq!(grid.get_width(), 3);
    assert_eq!(grid.get_height(), 2);
    assert_eq!(grid.as_slice(), &[Tile::Void(0); 6][..]);
    let numbers: Grid<u32> = Grid::new(2, 2);
    assert_eq!(numbers.as_slice(), &[0, 0, 0, 0][..]);
    let factions: Grid<Faction> = Grid::new(1, 1);
    assert_eq!(factions.get(0, 0), Ok(&Faction::Neutral));
}

#[test]
fn filled_grid_holds_the_value() {
    let grid = Grid::new_filled_with(7u8, 4, 3);
    assert_eq!(grid.get_width(), 4);
    assert_eq!(grid.get_height(), 3);
    assert_eq!(grid.as_slice().len(), 12);
    assert!(grid.as_slice().iter().all(|v| *v == 7));
}

#[test]
fn grid_is_row_major() {
    let mut grid = Grid::new_filled_with(0usize, 3, 2);
    for y in 0..2 {
        for x in 0..3 {
            *grid.get_mut(x, y).unwrap_or_else(|_| panic!("inside")) = 10 * y + x;
        }
    }
    assert_eq!(grid.as_slice(), &[0, 1, 2, 10, 11, 12][..]);
    assert_eq!(grid.get(2, 1), Ok(&12));
    assert_eq!(grid.get(0, 1), Ok(&10));
    assert_eq!(grid.into_cells(), vec![0, 1, 2, 10, 11, 12]);
}

#[test]
fn grid_access_outside_fails() {
    let mut grid = Grid::new_filled_with(1i32, 3, 2);
    assert_eq!(grid.get(3, 0), Err(Error::IndexOutOfBounds));
    assert_eq!(grid.get(0, 2), Err(Error::IndexOutOfBounds));
    assert_eq!(grid.get(usize::MAX, usize::MAX), Err(Error::IndexOutOfBounds));
    assert_eq!(grid.get(3, 1), Err(Error::IndexOutOfBounds));
    assert!(matches!(grid.get_mut(3, 0), Err(Error::IndexOutOfBounds)));
    assert!(matches!(grid.get_mut(0, 2), Err(Error::IndexOutOfBounds)));
    assert!(matches!(grid.get_mut(2, 1), Ok(_)));
    assert_eq!(grid.as_slice(), &[1; 6][..]);
}

#[test]
fn empty_grids_have_no_rows() {
    let none: Grid<u8> = Grid::new(0, 0);
    assert_eq!((none.get_width(), none.get_height()), (0, 0));
    let no_columns: Grid<u8> = Grid::new(0, 5);
    assert_eq!((no_columns.get_width(), no_columns.get_height()), (0, 0));
    assert_eq!(no_columns.get(0, 0), Err(Error::IndexOutOfBounds));
    let no_rows: Grid<u8> = Grid::new_filled_with(1, 5, 0);
    assert_eq!((no_rows.get_width(), no_rows.get_height()), (5, 0));
    assert_eq!(no_rows.get(0, 0), Err(Error::IndexOutOfBounds));
    let empty: Grid<u8> = Grid::empty();
    assert_eq!((empty.get_width(), empty.get_height()), (0, 0));
    assert_eq!(empty.as_slice().len(), 0);
}

#[test]
fn grid_from_cells_checks_the_rows() {
    assert!(matches!(Grid::from_cells(3, vec![1, 2, 3, 4, 5, 6]), Ok(_)));
    assert!(matches!(Grid::from_cells(4, vec![1, 2, 3, 4, 5, 6]), Err(Error::DimensionMismatch)));
    assert!(matches!(Grid::from_cells(0, vec![1]), Err(Error::DimensionMismatch)));
    assert!(matches!(Grid::<u8>::from_cells(0, vec![]), Ok(_)));
    let grid = Grid::from_cells(2, vec![1, 2, 3, 4, 5, 6]).unwrap_or_else(|_| panic!("fits"));
    assert_eq!((grid.get_width(), grid.get_height()), (2, 3));
    assert_eq!(grid.get(1, 2), Ok(&6));
    let same = Grid::with_cells(3, vec![1, 2, 3, 4, 5, 6]);
    assert_eq!((same.get_width(), same.get_height()), (3, 2));
    assert_eq!(same.get(0, 1), Ok(&4));
}

#[test]
fn grid_clone_has_its_own_storage() {
    let mut grid = Grid::new_filled_with(1u8, 2, 2);
    let copy = grid.clone();
    *grid.get_mut(0, 0).unwrap_or_else(|_| panic!("inside")) = 9;
    assert_eq!(copy.as_slice(), &[1, 1, 1, 1][..]);
    assert_eq!(grid.as_slice(), &[9, 1, 1, 1][..]);
    assert_eq!((copy.get_width(), copy.get_height()), (2, 2));
}

#[test]
fn grid_fill_overwrites_all() {
    let mut grid = Grid::from_cells(2, vec![1, 2, 3, 4]).unwrap_or_else(|_| panic!("fits"));
    grid.fill(8);
    assert_eq!(grid.as_slice(), &[8, 8, 8, 8][..]);
    assert_eq!((grid.get_width(), grid.get_height()), (2, 2));
}

#[test]
fn level_access() {
    let mut level: GridLevel<Tile> = GridLevel::new(4, 3);
    assert_eq!(level.get_width(), 4);
    assert_eq!(level.get_height(), 3);
    assert_eq!(level.get_tile(3, 2), Ok(&Tile::Void(0)));
    assert_eq!(level.get_tile(4, 2), Err(Error::IndexOutOfBounds));
    assert_eq!(level.get_tile(3, 3), Err(Error::IndexOutOfBounds));
    *level.get_mut_tile(1, 2).unwrap_or_else(|_| panic!("inside")) = Tile::Floor(5);
    assert_eq!(level.get_tile(1, 2), Ok(&Tile::Floor(5)));
    assert_eq!(level.get_tile_with_tuple((1, 2)), Ok(&Tile::Floor(5)));
    assert_eq!(level.get_tile_with_vec(&Vector::new(1, 2)), Ok(&Tile::Floor(5)));
    assert_eq!(level.get_tile_with_tuple((2, 1)), Ok(&Tile::Void(0)));
    assert_eq!(level.get_tile_with_tuple((4, 0)), Err(Error::IndexOutOfBounds));
    assert_eq!(level.get_tile_with_vec(&Vector::new(0, 3)), Err(Error::IndexOutOfBounds));
    *level.get_mut_tile_with_tuple((0, 0)).unwrap_or_else(|_| panic!("inside")) = Tile::Wall(1);
    *level.get_mut_tile_with_vec(&Vector::new(3, 0)).unwrap_or_else(|_| panic!("inside")) =
        Tile::Wall(2);
    assert!(matches!(level.get_mut_tile(4, 0), Err(Error::IndexOutOfBounds)));
    assert!(matches!(level.get_mut_tile_with_tuple((0, 3)), Err(Error::IndexOutOfBounds)));
    assert!(matches!(
        level.get_mut_tile_with_vec(&Vector::new(9, 9)),
        Err(Error::IndexOutOfBounds)
    ));
    let v = Tile::Void(0);
    assert_eq!(
        level.as_slice(),
        &[Tile::Wall(1), v, v, Tile::Wall(2), v, v, v, v, v, Tile::Floor(5), v, v][..]
    );
}

#[test]
fn level_filled_and_refilled() {
    let mut level = GridLevel::new_filled_with(Tile::Wall(3), 2, 2);
    assert_eq!(level.as_slice(), &[Tile::Wall(3); 4][..]);
    level.fill_with(Tile::Floor(1));
    assert_eq!(level.as_slice(), &[Tile::Floor(1); 4][..]);
    assert_eq!((level.get_width(), level.get_height()), (2, 2));
}

#[test]
fn level_clone_has_its_own_storage() {
    let mut level = GridLevel::new_filled_with(Faction::Neutral, 3, 1);
    let copy = level.clone();
    *level.get_mut_tile(2, 0).unwrap_or_else(|_| panic!("inside")) = Faction::Faction(1);
    assert_eq!(copy.as_slice(), &[Faction::Neutral; 3][..]);
    assert_eq!(level.get_tile(2, 0), Ok(&Faction::Faction(1)));
}

#[test]
fn level_tiles_in_and_out() {
    let w = Tile::Wall(0);
    let f = Tile::Floor(0);
    let level = tiles_of(2, &[w, f, f, w]);
    assert_eq!((level.get_width(), level.get_height()), (2, 2));
    assert_eq!(level.get_tile(1, 0), Ok(&f));
    assert_eq!(level.into_tiles(), vec![w, f, f, w]);
    assert!(matches!(
        GridLevel::from_tiles(3, vec![w, f, f, w]),
        Err(Error::DimensionMismatch)
    ));
    let empty: GridLevel<Tile> = GridLevel::empty();
    assert_eq!((empty.get_width(), empty.get_height()), (0, 0));
    let same = GridLevel::with_tiles(4, vec![w, f, f, w]);
    assert_eq!((same.get_width(), same.get_height()), (4, 1));
}

fn wall_corner(level: &mut GridLevel<Tile>) {
    if let Ok(tile) = level.get_mut_tile(0, 0) {
        *tile = Tile::Wall(0);
    }
}

fn floor_all(level: &mut GridLevel<Tile>) {
    level.fill_with(Tile::Floor(2));
}

#[test]
fn apply_chains_generators() {
    let mut level: GridLevel<Tile> = GridLevel::new(2, 2);
    level.apply(floor_all).apply(wall_corner);
    assert_eq!(
        level.as_slice(),
        &[Tile::Wall(0), Tile::Floor(2), Tile::Floor(2), Tile::Floor(2)][..]
    );
    let mut other: GridLevel<Tile> = GridLevel::new(2, 1);
    let after = other.apply(wall_corner).apply(floor_all);
    assert_eq!(after.get_tile(0, 0), Ok(&Tile::Floor(2)));
    let mut third: GridLevel<Tile> = GridLevel::new(1, 1);
    third.apply(|l: &mut GridLevel<Tile>| l.fill_with(Tile::Wall(4)));
    assert_eq!(third.get_tile(0, 0), Ok(&Tile::Wall(4)));
}

#[test]
fn tile_defaults() {
    assert_eq!(Tile::default(), Tile::Void(0));
    assert_eq!(Faction::default(), Faction::Neutral);
}

#[test]
fn directions() {
    assert_eq!(Direction::Up.get_tuple(), (0, 1));
    assert_eq!(Direction::Down.get_tuple(), (0, -1));
    assert_eq!(Direction::Left.get_tuple(), (-1, 0));
    assert_eq!(Direction::Right.get_tuple(), (1, 0));
    assert_eq!(Direction::Ur.get_tuple(), (1, 1));
    assert_eq!(Direction::Dr.get_tuple(), (1, -1));
    assert_eq!(Direction::Dl.get_tuple(), (-1, -1));
    assert_eq!(Direction::Ul.get_tuple(), (-1, 1));
    assert_eq!(Direction::Ul.get_vec(), Vector::new(-1, 1));
    assert_eq!(Direction::Right.get_vec(), Vector { x: 1, y: 0 });
    assert_eq!(
        Direction::get_orthogonal_dirs(),
        [Direction::Up, Direction::Down, Direction::Left, Direction::Right]
    );
    assert_eq!(
        Direction::get_dirs(),
        [
            Direction::Up,
            Direction::Down,
            Direction::Left,
            Direction::Right,
            Direction::Dl,
            Direction::Dr,
            Direction::Ul,
            Direction::Ur
        ]
    );
}

#[test]
fn coordinates_take_steps() {
    assert_eq!(add_isize_to_usize(1, 4), Some(5));
    assert_eq!(add_isize_to_usize(-1, 4), Some(3));
    assert_eq!(add_isize_to_usize(0, 4), Some(4));
    assert_eq!(add_isize_to_usize(0, 0), Some(0));
    assert_eq!(add_isize_to_usize(-1, 0), None);
    assert_eq!(add_isize_to_usize(-1, 1), Some(0));
    assert_eq!(add_isize_to_usize(-4, 4), Some(0));
    assert_eq!(add_isize_to_usize(-5, 4), None);
    assert_eq!(add_isize_to_usize(1, usize::MAX), None);
    assert_eq!(add_isize_to_usize(0, usize::MAX), None);
    assert_eq!(add_isize_to_usize(-1, usize::MAX), Some(usize::MAX - 1));
    assert_eq!(add_isize_to_usize(1, usize::MAX - 1), Some(usize::MAX));
    assert_eq!(add_isize_to_usize(2, usize::MAX - 1), None);
    assert_eq!(add_isize_to_usize(isize::MAX, 1), Some(isize::MAX as usize + 1));
    assert_eq!(add_isize_to_usize(isize::MIN, usize::MAX), Some(isize::MAX as usize));
    assert_eq!(add_isize_to_usize(isize::MIN, isize::MAX as usize), None);
}

#[test]
fn dead_ends() {
    let w = Tile::Wall(0);
    let f = Tile::Floor(0);
    let level = tiles_of(
        4,
        &[
            f, f, f, w, //
            w, f, w, w, //
            w, f, f, f,
        ],
    );
    assert!(is_deadend(&level, 0, 0));
    assert!(!is_deadend(&level, 1, 0));
    assert!(is_deadend(&level, 2, 0));
    assert!(!is_deadend(&level, 1, 1));
    assert!(!is_deadend(&level, 1, 2));
    assert!(!is_deadend(&level, 2, 2));
    assert!(is_deadend(&level, 3, 2));
    assert!(is_deadend(&level, 3, 0));
    assert!(is_deadend(&level, 0, 2));
    assert!(!is_deadend(&level, 2, 1));
    assert!(is_deadend(&level, 9, 9));
}

#[test]
fn dead_ends_are_filled_at_once() {
    let w = Tile::Wall(0);
    let f = Tile::Floor(0);
    let v = Tile::Void(3);
    let mut level = tiles_of(
        4,
        &[
            f, f, f, v, //
            w, f, w, w, //
            w, f, f, f,
        ],
    );
    assert!(fill_dead_end_tiles(&mut level));
    assert_eq!(
        level.as_slice(),
        &[
            w, f, w, v, //
            w, f, w, w, //
            w, f, f, w
        ][..]
    );
    assert!(fill_dead_end_tiles(&mut level));
    assert_eq!(
        level.as_slice(),
        &[
            w, w, w, v, //
            w, f, w, w, //
            w, f, w, w
        ][..]
    );
    assert!(fill_dead_end_tiles(&mut level));
    assert!(!fill_dead_end_tiles(&mut level));
    assert_eq!(
        level.as_slice(),
        &[
            w, w, w, v, //
            w, w, w, w, //
            w, w, w, w
        ][..]
    );
}

#[test]
fn a_ring_has_no_dead_end() {
    let w = Tile::Wall(7);
    let f = Tile::Floor(1);
    let ring = [
        f, f, f, //
        f, w, f, //
        f, f, f,
    ];
    let mut level = tiles_of(3, &ring);
    assert!(!fill_dead_end_tiles(&mut level));
    assert_eq!(level.as_slice(), &ring[..]);
    let mut empty: GridLevel<Tile> = GridLevel::new(0, 0);
    assert!(!fill_dead_end_tiles(&mut empty));
}

#[test]
fn level_as_text() {
    let w = Tile::Wall(0);
    let f = Tile::Floor(3);
    let v = Tile::Void(1);
    let level = tiles_of(3, &[w, f, v, f, f, w]);
    let text: String = level_text(&level).into_iter().collect();
    assert_eq!(text, "# *\n  #\n");
    assert_eq!(tile_char(&w), '#');
    assert_eq!(tile_char(&f), ' ');
    assert_eq!(tile_char(&v), '*');
    let empty: GridLevel<Tile> = GridLevel::new(0, 0);
    assert_eq!(level_text(&empty).len(), 0);
    let flat: GridLevel<Tile> = GridLevel::new(2, 0);
    assert_eq!(level_text(&flat).len(), 0);
}
