//! Faction diffusion that draws with the xorshift generator of rand.
//!
//! The generator of the simulator gives one number for each step. Every cell then
//! seeds a generator of its own from that number and its coordinates, lets it run
//! twice, and has it pick one entry of the deck of the cell.

#![allow(deprecated)]

use vstd::prelude::*;
use rand::seq::SliceRandom;
use rand::XorShiftRng;
use smallvec::SmallVec;
use crate::generator::random::{os_rng, rng_from_os, rng_from_seed, rng_next_u32};
use crate::generator::rule::{
    deck,
    is_step,
    lemma_deck_contains,
    lemma_deck_empty,
    may_follow,
    owner,
    window_owner,
};
use crate::level::{add_isize_to_usize, GridLevel};
use crate::tile::Faction;
use crate::util::{lemma_index_in_bounds, lemma_index_join, lemma_index_split, Direction, Error};

verus! {

/// The deck of one cell: the numbers of the factions that may take it, in a `SmallVec`
/// of smallvec with room for nine of them. Of what is inside, the library knows what
/// the functions below say of `deck_items`.
#[verifier::external_body]
pub struct Deck {
    items: SmallVec<[usize; 9]>,
}

/// What a deck holds, the first entry first.
pub uninterp spec fn deck_items(deck: Deck) -> Seq<usize>;

/// `SmallVec::new` of smallvec: a vector without items.
#[verifier::external_body]
fn deck_new() -> (deck: Deck)
    ensures
        deck_items(deck) == Seq::<usize>::empty(),
{
    Deck { items: SmallVec::new() }
}

/// `SmallVec::len` of smallvec: the number of items.
#[verifier::external_body]
fn deck_len(deck: &Deck) -> (n: usize)
    ensures
        n == deck_items(*deck).len(),
{
    deck.items.len()
}

/// `SmallVec::push` of smallvec: the item goes behind the items that are there. With
/// fewer than nine items the vector stays in its inline storage and allocates nothing.
#[verifier::external_body]
fn deck_push(deck: &mut Deck, id: usize)
    requires
        deck_items(*old(deck)).len() < 9,
    ensures
        deck_items(*final(deck)) == deck_items(*old(deck)).push(id),
{
    deck.items.push(id);
}

/// `SliceRandom::choose` of rand on the items of the deck: none of an empty deck, and
/// else one of its items. Which one depends on the generator.
#[verifier::external_body]
fn deck_choose(deck: &Deck, rng: &mut XorShiftRng) -> (picked: Option<usize>)
    ensures
        picked is None <==> deck_items(*deck).len() == 0,
        picked is Some ==> exists|j: int|
            0 <= j < deck_items(*deck).len() && #[trigger] deck_items(*deck)[j] == picked->Some_0,
{
    deck.items.choose(rng).map(|id| *id)
}

/// A coordinate folded into 32 bits: its lower half xor its upper half.
pub open spec fn folded(c: usize) -> u32 {
    (((c as u64) ^ ((c as u64) >> 32)) & 0xffff_ffff) as u32
}

/// Folds a coordinate into 32 bits.
pub fn fold(c: usize) -> (f: u32)
    ensures
        f == folded(c),
{
    let wide = c as u64;
    let low = (wide ^ (wide >> 32)) & 0xffff_ffff;
    assert(low <= 0xffff_ffff) by (bit_vector)
        requires
            low == (wide ^ (wide >> 32)) & 0xffff_ffff,
    ;
    low as u32
}

/// The byte `i` of a number, counted from its upper end.
pub open spec fn be_byte(n: u32, i: int) -> u8 {
    ((n >> ((24 - 8 * i) as u32)) & 0xff) as u8
}

/// The seed of the generator of the cell `(x, y)` in a step with the number `number`:
/// the bytes of the number, of the folded `x` and of the folded `y`, each from its upper
/// end, and four bytes 1.
pub open spec fn cell_seed(number: u32, x: usize, y: usize) -> Seq<u8> {
    Seq::new(
        16,
        |i: int|
            if i < 4 {
                be_byte(number, i)
            } else if i < 8 {
                be_byte(folded(x), i - 4)
            } else if i < 12 {
                be_byte(folded(y), i - 8)
            } else {
                1u8
            },
    )
}

/// The four bytes of a number, from its upper end.
fn be_bytes(n: u32) -> (b: [u8; 4])
    ensures
        forall|i: int| 0 <= i < 4 ==> #[trigger] b@[i] == be_byte(n, i),
{
    let b0 = (n >> 24) & 0xff;
    let b1 = (n >> 16) & 0xff;
    let b2 = (n >> 8) & 0xff;
    let b3 = n & 0xff;
    assert(b0 <= 0xff && b1 <= 0xff && b2 <= 0xff && b3 <= 0xff && b3 == (n >> 0) & 0xff)
        by (bit_vector)
        requires
            b0 == (n >> 24) & 0xff,
            b1 == (n >> 16) & 0xff,
            b2 == (n >> 8) & 0xff,
            b3 == n & 0xff,
    ;
    [b0 as u8, b1 as u8, b2 as u8, b3 as u8]
}

/// The seed of the generator of the cell `(x, y)` in a step with the number `number`.
pub fn seed_of_cell(number: u32, x: usize, y: usize) -> (seed: [u8; 16])
    ensures
        seed@ == cell_seed(number, x, y),
{
    let a = be_bytes(number);
    let b = be_bytes(fold(x));
    let c = be_bytes(fold(y));
    let seed = [
        a[0],
        a[1],
        a[2],
        a[3],
        b[0],
        b[1],
        b[2],
        b[3],
        c[0],
        c[1],
        c[2],
        c[3],
        1,
        1,
        1,
        1,
    ];
    assert(seed@ =~= cell_seed(number, x, y));
    seed
}

/// The holders found in the first `n` of the eight directions from `(x, y)`.
pub open spec fn neighbours_upto(
    width: int,
    height: int,
    cells: Seq<Faction>,
    x: int,
    y: int,
    n: nat,
) -> Seq<usize>
    decreases n,
{
    if n == 0 {
        Seq::empty()
    } else {
        let rest = neighbours_upto(width, height, cells, x, y, (n - 1) as nat);
        match beside(width, height, cells, x, y, n - 1) {
            Some(id) => rest.push(id),
            None => rest,
        }
    }
}

/// The holder of the cell one step from `(x, y)` in the `n`-th direction.
pub open spec fn beside(width: int, height: int, cells: Seq<Faction>, x: int, y: int, n: int) -> Option<
    usize,
> {
    if 0 <= n < 8 {
        let (dx, dy) = Direction::all()[n].offset();
        owner(width, height, cells, x + dx, y + dy)
    } else {
        None
    }
}

/// The cell of the window around a cell that lies in the `n`-th direction from it.
pub open spec fn window_index(n: int) -> int {
    let (dx, dy) = Direction::all()[n].offset();
    (dy + 1) * 3 + dx + 1
}

/// What a cell that holds `cur` becomes when `picked` was drawn from its deck.
pub open spec fn claimed(cur: Faction, picked: Option<usize>) -> Faction {
    match picked {
        Some(id) => Faction::Faction(id),
        None => cur,
    }
}

/// What a cell that holds `cur` becomes when `picked` was drawn from its deck: it goes
/// to the faction that was drawn, and stays as it is where none was.
pub fn claim(cur: Faction, picked: Option<usize>) -> (f: Faction)
    ensures
        f == claimed(cur, picked),
{
    match picked {
        Some(id) => Faction::Faction(id),
        None => cur,
    }
}

/// The directions are the eight cells of the window around a cell.
proof fn lemma_directions()
    ensures
        window_index(0) == 7,
        window_index(1) == 1,
        window_index(2) == 3,
        window_index(3) == 5,
        window_index(4) == 0,
        window_index(5) == 2,
        window_index(6) == 6,
        window_index(7) == 8,
{
    let all = Direction::all();
    assert(all[0] == Direction::Up);
    assert(all[1] == Direction::Down);
    assert(all[2] == Direction::Left);
    assert(all[3] == Direction::Right);
    assert(all[4] == Direction::Dl);
    assert(all[5] == Direction::Dr);
    assert(all[6] == Direction::Ul);
    assert(all[7] == Direction::Ur);
}

/// What lies beside a cell in a direction lies in its window.
proof fn lemma_beside_in_window(
    width: int,
    height: int,
    cells: Seq<Faction>,
    x: int,
    y: int,
    n: int,
)
    requires
        0 <= n < 8,
    ensures
        0 <= window_index(n) < 9,
        window_index(n) != 4,
        beside(width, height, cells, x, y, n) == window_owner(
            width,
            height,
            cells,
            x,
            y,
            window_index(n),
        ),
{
    lemma_directions();
    let all = Direction::all();
    assert(all[0] == Direction::Up);
    assert(all[1] == Direction::Down);
    assert(all[2] == Direction::Left);
    assert(all[3] == Direction::Right);
    assert(all[4] == Direction::Dl);
    assert(all[5] == Direction::Dr);
    assert(all[6] == Direction::Ul);
    assert(all[7] == Direction::Ur);
}

/// Every holder found in the directions is the holder of a cell of the window, and
/// where none is found, no cell of the window beside the middle has a holder.
proof fn lemma_neighbours(width: int, height: int, cells: Seq<Faction>, x: int, y: int, n: nat)
    requires
        n <= 8,
    ensures
        forall|j: int|
            0 <= j < neighbours_upto(width, height, cells, x, y, n).len() ==> exists|m: int|
                0 <= m < n && #[trigger] beside(width, height, cells, x, y, m) == Some(
                    #[trigger] neighbours_upto(width, height, cells, x, y, n)[j],
                ),
        neighbours_upto(width, height, cells, x, y, n).len() == 0 ==> forall|m: int|
            0 <= m < n ==> #[trigger] beside(width, height, cells, x, y, m) is None,
        neighbours_upto(width, height, cells, x, y, n).len() <= n,
    decreases n,
{
    if n > 0 {
        lemma_neighbours(width, height, cells, x, y, (n - 1) as nat);
        let rest = neighbours_upto(width, height, cells, x, y, (n - 1) as nat);
        let full = neighbours_upto(width, height, cells, x, y, n);
        assert forall|j: int| 0 <= j < full.len() implies exists|m: int|
            0 <= m < n && #[trigger] beside(width, height, cells, x, y, m) == Some(
                #[trigger] full[j],
            ) by {
            if j < rest.len() {
                let m = choose|m: int|
                    0 <= m < n - 1 && #[trigger] beside(width, height, cells, x, y, m) == Some(
                        rest[j],
                    );
                assert(beside(width, height, cells, x, y, m) == Some(full[j]));
            } else {
                assert(beside(width, height, cells, x, y, n - 1) == Some(full[j]));
            }
        }
    }
}

/// A cell whose own holder and whose neighbours' holders are `items` may become what
/// `picked`, drawn from `items`, makes of it.
proof fn lemma_claim_follows(
    width: int,
    height: int,
    cells: Seq<Faction>,
    x: int,
    y: int,
    items: Seq<usize>,
    picked: Option<usize>,
)
    requires
        0 <= x < width,
        0 <= y < height,
        !(cells[x + y * width] is Void),
        items == (match cells[x + y * width] {
            Faction::Faction(id) => seq![id],
            _ => Seq::<usize>::empty(),
        }) + neighbours_upto(width, height, cells, x, y, 8),
        items.len() == 0 ==> picked is None,
        items.len() > 0 ==> picked is Some && exists|j: int|
            0 <= j < items.len() && #[trigger] items[j] == picked->Some_0,
    ensures
        may_follow(width, height, cells, x, y, claimed(cells[x + y * width], picked)),
{
    let cur = cells[x + y * width];
    let own: Seq<usize> = match cur {
        Faction::Faction(id) => seq![id],
        _ => Seq::<usize>::empty(),
    };
    let around = neighbours_upto(width, height, cells, x, y, 8);
    let d = deck(width, height, cells, x, y);
    lemma_neighbours(width, height, cells, x, y, 8);
    assert(window_owner(width, height, cells, x, y, 4) == owner(width, height, cells, x, y));
    if items.len() == 0 {
        assert(own.len() == 0 && around.len() == 0);
        assert forall|p: int| 0 <= p < 9 implies #[trigger] window_owner(
            width,
            height,
            cells,
            x,
            y,
            p,
        ) is None by {
            lemma_directions();
            let m: int = if p == 7 {
                0
            } else if p == 1 {
                1
            } else if p == 3 {
                2
            } else if p == 5 {
                3
            } else if p == 0 {
                4
            } else if p == 2 {
                5
            } else if p == 6 {
                6
            } else {
                7
            };
            if p != 4 {
                lemma_beside_in_window(width, height, cells, x, y, m);
                assert(beside(width, height, cells, x, y, m) is None);
            }
        }
        lemma_deck_empty(width, height, cells, x, y, 9);
    } else {
        let j = choose|j: int| 0 <= j < items.len() && #[trigger] items[j] == picked->Some_0;
        let id = picked->Some_0;
        let p: int = if j < own.len() {
            4
        } else {
            let m = choose|m: int|
                0 <= m < 8 && #[trigger] beside(width, height, cells, x, y, m) == Some(
                    #[trigger] around[j - own.len()],
                );
            lemma_beside_in_window(width, height, cells, x, y, m);
            window_index(m)
        };
        assert(window_owner(width, height, cells, x, y, p) == Some(id));
        lemma_deck_contains(width, height, cells, x, y, 9, p);
        let i = choose|i: int|
            0 <= i < d.len() && #[trigger] d[i] == window_owner(width, height, cells, x, y, p)->Some_0;
        assert(claimed(cur, picked) == Faction::Faction(d[i]));
    }
}

/// The faction simulator. It holds the generator that gives each step its number.
pub struct FactionGen {
    rand: XorShiftRng,
}

impl FactionGen {
    /// A simulator whose generator is seeded from the random source of the operating
    /// system, or from sixteen bytes 1 where there is none.
    pub fn new() -> (gen: FactionGen) {
        let seeded = match os_rng() {
            Some(source) => {
                let mut source = source;
                rng_from_os(&mut source)
            },
            None => None,
        };
        match seeded {
            Some(rand) => FactionGen::from_generator(rand),
            None => FactionGen::from_generator(rng_from_seed([1u8; 16])),
        }
    }

    /// The generator that gives each step its number.
    pub closed spec fn generator(&self) -> XorShiftRng {
        self.rand
    }

    /// A simulator that draws the numbers of its steps from `rand`. Two simulators
    /// made of generators in the same state do the same steps.
    pub fn from_generator(rand: XorShiftRng) -> (gen: FactionGen)
        ensures
            gen.generator() == rand,
    {
        FactionGen { rand }
    }

    /// One step. Where the two levels have the same shape, `level` holds a generation
    /// that the rule allows to follow afterwards, and `buffer` holds what `level` held
    /// before. Where they have not, the levels stay as they are and the error says so.
    pub fn generate(
        &mut self,
        level: &mut GridLevel<Faction>,
        buffer: &mut GridLevel<Faction>,
    ) -> (r: Result<(), Error>)
        ensures
            old(level).width() == old(buffer).width() && old(level).height() == old(
                buffer,
            ).height() ==> {
                &&& r is Ok
                &&& final(level).width() == old(level).width()
                &&& final(level).height() == old(level).height()
                &&& is_step(
                    old(level).width() as int,
                    old(level).height() as int,
                    old(level)@,
                    final(level)@,
                )
                &&& *final(buffer) == *old(level)
            },
            !(old(level).width() == old(buffer).width() && old(level).height() == old(
                buffer,
            ).height()) ==> {
                &&& r == Err::<(), Error>(Error::DimensionMismatch)
                &&& *final(level) == *old(level)
                &&& *final(buffer) == *old(buffer)
            },
    {
        let width = level.get_width();
        let height = level.get_height();
        if width != buffer.get_width() || height != buffer.get_height() {
            return Err(Error::DimensionMismatch);
        }
        let number = rng_next_u32(&mut self.rand);
        let mut scratch: GridLevel<Faction> = GridLevel::empty();
        core::mem::swap(buffer, &mut scratch);
        let mut cells = scratch.into_tiles();
        let total = cells.len();
        let mut i: usize = 0;
        while i < total
            invariant
                i <= total,
                total == cells@.len(),
                total == level@.len(),
                width == level.width(),
                height == level.height(),
                level@.len() == width * height,
                forall|j: int|
                    0 <= j < i ==> may_follow(
                        width as int,
                        height as int,
                        level@,
                        j % (width as int),
                        j / (width as int),
                        #[trigger] cells@[j],
                    ),
            decreases total - i,
        {
            proof {
                if width == 0 {
                    assert(width * height == 0) by (nonlinear_arith)
                        requires
                            width == 0,
                    ;
                }
                lemma_index_split(i as int, width as int, height as int);
            }
            let x = i % width;
            let y = i / width;
            let next = Self::next_tile(number, x, y, level);
            cells[i] = next;
            i += 1;
        }
        proof {
            assert forall|x: int, y: int| 0 <= x < width && 0 <= y < height implies may_follow(
                width as int,
                height as int,
                level@,
                x,
                y,
                #[trigger] cells@[x + y * width],
            ) by {
                lemma_index_in_bounds(x, y, width as int, height as int);
                lemma_index_join(x, y, width as int);
            }
        }
        let mut next = GridLevel::with_tiles(width, cells);
        core::mem::swap(level, &mut next);
        core::mem::swap(buffer, &mut next);
        Ok(())
    }

    /// What the cell `(x, y)` becomes in a step with the number `number`. A cell with
    /// a deck to draw from seeds a generator of its own, lets it run twice and has it
    /// pick.
    pub fn next_tile(number: u32, x: usize, y: usize, level: &GridLevel<Faction>) -> (f: Faction)
        requires
            level.contains(x as int, y as int),
        ensures
            may_follow(level.width() as int, level.height() as int, level@, x as int, y as int, f),
    {
        let mut deck = deck_new();
        let width = level.get_width();
        let height = level.get_height();
        proof {
            lemma_index_in_bounds(x as int, y as int, width as int, height as int);
        }
        let cur = match level.get_tile(x, y) {
            Ok(tile) => *tile,
            Err(_) => Faction::Void,
        };
        match cur {
            Faction::Faction(id) => {
                deck_push(&mut deck, id);
            },
            Faction::Void => {
                return cur;
            },
            _ => {},
        }
        assert(deck_items(deck) =~= (match cur {
            Faction::Faction(id) => seq![id],
            _ => Seq::<usize>::empty(),
        }));
        Self::get_faction_neighbours(x, y, &mut deck, level);
        let picked = if deck_len(&deck) == 0 {
            None
        } else {
            let mut rand = rng_from_seed(seed_of_cell(number, x, y));
            rng_next_u32(&mut rand);
            rng_next_u32(&mut rand);
            deck_choose(&deck, &mut rand)
        };
        proof {
            lemma_claim_follows(
                width as int,
                height as int,
                level@,
                x as int,
                y as int,
                deck_items(deck),
                picked,
            );
        }
        claim(cur, picked)
    }

    /// Puts the holders of the eight neighbours of `(x, y)` on the deck, in the order of
    /// the directions.
    fn get_faction_neighbours(x: usize, y: usize, deck: &mut Deck, level: &GridLevel<Faction>)
        requires
            level.contains(x as int, y as int),
            deck_items(*old(deck)).len() <= 1,
        ensures
            deck_items(*final(deck)) == deck_items(*old(deck)) + neighbours_upto(
                level.width() as int,
                level.height() as int,
                level@,
                x as int,
                y as int,
                8,
            ),
    {
        let dirs = Direction::get_dirs();
        let width = level.get_width();
        let height = level.get_height();
        let ghost w = width as int;
        let ghost h = height as int;
        let mut n: usize = 0;
        assert(deck_items(*deck) =~= deck_items(*old(deck)) + neighbours_upto(
            w,
            h,
            level@,
            x as int,
            y as int,
            0,
        ));
        while n < 8
            invariant
                n <= 8,
                dirs@ == Direction::all(),
                w == level.width(),
                h == level.height(),
                w == width,
                h == height,
                level.contains(x as int, y as int),
                deck_items(*old(deck)).len() <= 1,
                deck_items(*deck) == deck_items(*old(deck)) + neighbours_upto(
                    w,
                    h,
                    level@,
                    x as int,
                    y as int,
                    n as nat,
                ),
            decreases 8 - n,
        {
            let (ix, iy) = dirs[n].get_tuple();
            proof {
                lemma_neighbours(w, h, level@, x as int, y as int, n as nat);
                let all = Direction::all();
                assert(all[0] == Direction::Up);
                assert(all[1] == Direction::Down);
                assert(all[2] == Direction::Left);
                assert(all[3] == Direction::Right);
                assert(all[4] == Direction::Dl);
                assert(all[5] == Direction::Dr);
                assert(all[6] == Direction::Ul);
                assert(all[7] == Direction::Ur);
            }
            let mut found: Option<usize> = None;
            let ox = add_isize_to_usize(ix, x);
            let oy = add_isize_to_usize(iy, y);
            assert(-1 <= ix <= 1 && -1 <= iy <= 1);
            match (ox, oy) {
                (Some(nx), Some(ny)) => {
                    match level.get_tile_with_tuple((nx, ny)) {
                        Ok(tile) => {
                            match *tile {
                                Faction::Faction(id) => {
                                    found = Some(id);
                                },
                                _ => {},
                            }
                        },
                        Err(_) => {},
                    }
                },
                _ => {},
            }
            assert(found == beside(w, h, level@, x as int, y as int, n as int));
            if let Some(id) = found {
                deck_push(deck, id);
            }
            n += 1;
            assert(deck_items(*deck) =~= deck_items(*old(deck)) + neighbours_upto(
                w,
                h,
                level@,
                x as int,
                y as int,
                n as nat,
            ));
        }
    }
}

} // verus!
