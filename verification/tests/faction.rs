use dungenon::generator::faction::{claim, fold, seed_of_cell};
use dungenon::generator::FactionGen;
use dungenon::level::GridLevel;
use dungenon::tile::Faction;
use dungenon::util::Error;
use rand::SeedableRng;

#[test]
fn powers_of_two() {
    for i in 1..11 {
        let mut gen = FactionGen::new();
        let mut a = GridLevel::new(1 << i, 1 << i);
        *(a.get_mut_tile(0, 0)
            .unwrap_or_else(|_| panic!("Should exist"))) = Faction::Faction(1);
        *(a.get_mut_tile(a.get_width() - 1, a.get_height() - 1)
            .unwrap_or_else(|_| panic!("Should exist"))) = Faction::Faction(2);
        let mut b = a.clone();
        for _ in 0..50 {
            assert!(gen.generate(&mut a, &mut b).is_ok());
        }
    }
}

#[test]
fn powers_of_two_minus_one() {
    for i in 1..11 {
        let mut gen = FactionGen::new();
        let mut a = GridLevel::new(1 << i - 1, 1 << i - 1);
        *(a.get_mut_tile(0, 0)
            .unwrap_or_else(|_| panic!("Should exist"))) = Faction::Faction(1);
        *(a.get_mut_tile(a.get_width() - 1, a.get_height() - 1)
            .unwrap_or_else(|_| panic!("Should exist"))) = Faction::Faction(2);
        let mut b = a.clone();
        for _ in 0..50 {
            assert!(gen.generate(&mut a, &mut b).is_ok());
        }
    }
}

#[test]
fn non_square() {
    let max = 11;
    for i in 1..max {
        let mut gen = FactionGen::new();
        let mut a = GridLevel::new(1 << i, 1 << (max - i));
        *(a.get_mut_tile(0, 0)
            .unwrap_or_else(|_| panic!("Should exist"))) = Faction::Faction(1);
        *(a.get_mut_tile(a.get_width() - 1, a.get_height() - 1)
            .unwrap_or_else(|_| panic!("Should exist"))) = Faction::Faction(2);
        let mut b = a.clone();
        for _ in 0..50 {
            assert!(gen.generate(&mut a, &mut b).is_ok());
        }
    }
}

fn level_of(width: usize, rows: &[Faction]) -> GridLevel<Faction> {
    match GridLevel::from_tiles(width, rows.to_vec()) {
        Ok(level) => level,
        Err(_) => panic!("the tiles do not fill the rows"),
    }
}

#[test]
fn xorshift_single_owner_takes_every_neighbour() {
    let n = Faction::Neutral;
    let o = Faction::Faction(7);
    let mut a = level_of(
        5,
        &[
            n, n, n, n, n, //
            n, n, n, n, n, //
            n, n, o, n, n, //
            n, n, n, n, n, //
            n, n, n, n, n,
        ],
    );
    let mut b = a.clone();
    let mut gen = FactionGen::new();
    assert_eq!(gen.generate(&mut a, &mut b), Ok(()));
    let expected = [
        n, n, n, n, n, //
        n, o, o, o, n, //
        n, o, o, o, n, //
        n, o, o, o, n, //
        n, n, n, n, n,
    ];
    assert_eq!(a.as_slice(), &expected[..]);
    assert_eq!(b.get_tile(1, 1), Ok(&n));
    assert_eq!(b.get_tile(2, 2), Ok(&o));
}

#[test]
fn xorshift_two_owners_share_the_square() {
    let mut saw = [false; 3];
    for _ in 0..64 {
        let mut a = level_of(
            2,
            &[Faction::Faction(1), Faction::Neutral, Faction::Neutral, Faction::Faction(2)],
        );
        let mut b = a.clone();
        let mut gen = FactionGen::new();
        assert_eq!(gen.generate(&mut a, &mut b), Ok(()));
        for tile in a.as_slice() {
            match *tile {
                Faction::Faction(id) => {
                    assert!(id == 1 || id == 2);
                    saw[id] = true;
                }
                _ => panic!("a cell beside two factions stayed unclaimed"),
            }
        }
    }
    assert!(saw[1] && saw[2]);
}

#[test]
fn xorshift_void_stays_void() {
    let v = Faction::Void;
    let o = Faction::Faction(3);
    let mut a = level_of(3, &[v, o, v, o, v, o, v, o, v]);
    let mut b = a.clone();
    let mut gen = FactionGen::new();
    for _ in 0..10 {
        assert_eq!(gen.generate(&mut a, &mut b), Ok(()));
        assert_eq!(a.as_slice(), &[v, o, v, o, v, o, v, o, v][..]);
    }
}

#[test]
fn xorshift_neutral_alone_stays_neutral() {
    let mut a: GridLevel<Faction> = GridLevel::new(4, 3);
    let mut b = a.clone();
    let mut gen = FactionGen::new();
    assert_eq!(gen.generate(&mut a, &mut b), Ok(()));
    assert!(a.as_slice().iter().all(|t| *t == Faction::Neutral));
}

#[test]
fn xorshift_refuses_other_shape() {
    let mut a: GridLevel<Faction> = GridLevel::new_filled_with(Faction::Faction(1), 3, 2);
    let mut b: GridLevel<Faction> = GridLevel::new(2, 3);
    let mut gen = FactionGen::new();
    assert_eq!(gen.generate(&mut a, &mut b), Err(Error::DimensionMismatch));
    assert_eq!(a.get_width(), 3);
    assert_eq!(b.get_width(), 2);
    assert!(a.as_slice().iter().all(|t| *t == Faction::Faction(1)));
    assert!(b.as_slice().iter().all(|t| *t == Faction::Neutral));
}

#[test]
fn cell_seed_is_number_then_coordinates() {
    assert_eq!(
        seed_of_cell(0x0102_0304, 5, 0x0a0b),
        [1, 2, 3, 4, 0, 0, 0, 5, 0, 0, 0x0a, 0x0b, 1, 1, 1, 1]
    );
    assert_eq!(fold(7), 7);
    assert_eq!(fold(0xffff_ffff), 0xffff_ffff);
}

#[test]
fn claim_takes_the_pick() {
    assert_eq!(claim(Faction::Neutral, Some(4)), Faction::Faction(4));
    assert_eq!(claim(Faction::Faction(1), Some(2)), Faction::Faction(2));
    assert_eq!(claim(Faction::Neutral, None), Faction::Neutral);
    assert_eq!(claim(Faction::Faction(9), None), Faction::Faction(9));
}

#[allow(deprecated)]
fn simulator_of(seed: u8) -> FactionGen {
    FactionGen::from_generator(rand::XorShiftRng::from_seed([seed; 16]))
}

#[test]
fn xorshift_same_generator_same_run() {
    let n = Faction::Neutral;
    let v = Faction::Void;
    let mut tiles = vec![n; 12 * 9];
    tiles[0] = Faction::Faction(1);
    tiles[5] = Faction::Faction(2);
    tiles[40] = v;
    tiles[107] = Faction::Faction(3);
    let mut a = level_of(12, &tiles);
    let mut a_back = a.clone();
    let mut b = level_of(12, &tiles);
    let mut b_back = b.clone();
    let mut first = simulator_of(9);
    let mut second = simulator_of(9);
    for _ in 0..20 {
        assert_eq!(first.generate(&mut a, &mut a_back), Ok(()));
        assert_eq!(second.generate(&mut b, &mut b_back), Ok(()));
        assert_eq!(a.as_slice(), b.as_slice());
        assert_eq!(a_back.as_slice(), b_back.as_slice());
    }
    assert_eq!(a.get_tile(4, 3), Ok(&v));
    let mut differ = false;
    for seed in 10..20 {
        let mut c = level_of(12, &tiles);
        let mut c_back = c.clone();
        let mut other = simulator_of(seed);
        for _ in 0..20 {
            assert_eq!(other.generate(&mut c, &mut c_back), Ok(()));
        }
        if c.as_slice() != a.as_slice() {
            differ = true;
        }
    }
    assert!(differ);
}
