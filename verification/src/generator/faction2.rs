//! Faction diffusion with a random stream of its own for every cell.
//!
//! One step recomputes who holds each cell from the cell and its eight neighbours,
//! as they were before the step. What a step does depends on the grid and on the
//! seed alone, so a run can be repeated from its first seed.

use vstd::prelude::*;
use crate::level::GridLevel;
use crate::tile::Faction;
use crate::util::{lemma_index_in_bounds, lemma_index_join, Error};
use crate::generator::random::{os_rng, os_seed};
use crate::generator::rule::{deck, deck_upto, is_step, lemma_deck_step, may_follow, owner};

verus! {

/// The state of a random stream.
pub type Seed = u64;

/// The multiplier that advances the stream of a cell.
pub const LEHMER_MULT0: Seed = 9954494205990559033;

/// The multiplier that mixes the row of a cell into its stream.
pub const LEHMER_MULT1: Seed = 8009960310945691199;

/// The multiplier that mixes the column of a cell into its stream.
pub const LEHMER_MULT2: Seed = 7836174002681351413;

/// The multiplier that spreads a seed that a caller names over all its bits.
pub const LEHMER_MULT3: Seed = 10414503560430172271;

/// The multiplier that advances the seed from one step to the next.
pub const LEHMER_MULT4: Seed = 2038836139019627173;

/// The upper bits of a state are its output.
pub const BIT_LENGTH: Seed = 32;

/// A stack of at most nine values that lives without allocation.
pub struct StaticVec<T> {
    i: usize,
    data: [T; 9],
}

impl<T> StaticVec<T> {
    #[verifier::type_invariant]
    spec fn bounded(&self) -> bool {
        self.i <= 9
    }

    /// The values that were pushed, the first one first.
    pub closed spec fn view(&self) -> Seq<T> {
        self.data@.subrange(0, self.i as int)
    }
}

impl<T: Default + Copy> StaticVec<T> {
    /// An empty stack.
    pub fn new() -> (v: StaticVec<T>)
        ensures
            v@ == Seq::<T>::empty(),
    {
        let v = StaticVec { i: 0, data: [T::default(); 9] };
        assert(v@ =~= Seq::<T>::empty());
        v
    }

    /// Puts `val` on top, unless the stack is full.
    pub fn push(&mut self, val: T)
        ensures
            old(self)@.len() < 9 ==> final(self)@ == old(self)@.push(val),
            old(self)@.len() >= 9 ==> final(self)@ == old(self)@,
    {
        proof {
            use_type_invariant(&*self);
        }
        if self.i < 9 {
            self.data[self.i] = val;
            self.i += 1;
            assert(self@ =~= old(self)@.push(val));
        }
    }

    pub fn clear(&mut self)
        ensures
            final(self)@ == Seq::<T>::empty(),
    {
        self.i = 0;
        assert(self@ =~= Seq::<T>::empty());
    }

    pub fn is_empty(&self) -> (e: bool)
        ensures
            e == (self@.len() == 0),
    {
        proof {
            use_type_invariant(self);
        }
        self.i == 0
    }

    pub fn len(&self) -> (n: usize)
        ensures
            n == self@.len(),
            n <= 9,
    {
        proof {
            use_type_invariant(self);
        }
        self.i
    }

    /// The value that was pushed as the `n`-th, counted from 0.
    pub fn get(&self, n: usize) -> (val: T)
        requires
            n < self@.len(),
        ensures
            val == self@[n as int],
    {
        proof {
            use_type_invariant(self);
        }
        self.data[n]
    }
}

/// What `mix` gives: the state `a` with the coordinate `b` folded in. The coordinate is
/// first made odd, so that the coordinate 0 changes the state too.
pub open spec fn mixed(a: Seed, b: usize, mult: Seed) -> Seed {
    a ^ (((b as Seed) << 1) | 1).wrapping_mul(mult)
}

pub fn mix(a: Seed, b: usize, mult: Seed) -> (r: Seed)
    ensures
        r == mixed(a, b, mult),
{
    a ^ (((b as Seed) << 1) | 1).wrapping_mul(mult)
}

/// The state that follows `stream`.
pub open spec fn advanced(stream: Seed) -> Seed {
    stream.wrapping_mul(LEHMER_MULT0)
}

/// The number that a state stands for.
pub open spec fn output(stream: Seed) -> usize {
    (stream >> BIT_LENGTH) as usize
}

/// The state in which the stream of the cell `(x, y)` begins in a step with the seed
/// `seed`: the seed with both coordinates mixed in, made odd, and advanced twice, so that
/// the streams of neighbouring cells have drifted apart before the first draw.
pub open spec fn cell_stream(seed: Seed, x: usize, y: usize) -> Seed {
    advanced(advanced(mixed(mixed(seed, y, LEHMER_MULT1), x, LEHMER_MULT2) | 1))
}

/// The first number that the stream of the cell `(x, y)` gives in a step with the seed
/// `seed`.
pub open spec fn cell_draw(seed: Seed, x: usize, y: usize) -> usize {
    output(advanced(cell_stream(seed, x, y)))
}

/// The random stream of one cell in one step. It shares no state with the stream of
/// any other cell.
pub struct PerCellRng {
    stream: Seed,
}

impl PerCellRng {
    /// The state of the stream.
    pub closed spec fn view(&self) -> Seed {
        self.stream
    }

    /// The stream of the cell `(x, y)` in a step with the seed `seed`.
    pub fn new(seed: Seed, x: usize, y: usize) -> (rng: PerCellRng)
        ensures
            rng@ == cell_stream(seed, x, y),
    {
        let mixed = mix(mix(seed, y, LEHMER_MULT1), x, LEHMER_MULT2) | 1;
        let first = mixed.wrapping_mul(LEHMER_MULT0);
        PerCellRng { stream: first.wrapping_mul(LEHMER_MULT0) }
    }

    /// Moves the stream on by one state and gives the number of the new state.
    pub fn advance(&mut self) -> (value: usize)
        ensures
            final(self)@ == advanced(old(self)@),
            value == output(final(self)@),
    {
        self.stream = self.stream.wrapping_mul(LEHMER_MULT0);
        (self.stream >> BIT_LENGTH) as usize
    }
}

/// The entry of a deck that the number `n` picks.
pub fn select(deck: &StaticVec<usize>, n: usize) -> (id: usize)
    requires
        deck@.len() > 0,
    ensures
        id == deck@[(n as int) % (deck@.len() as int)],
{
    deck.get(n % deck.len())
}

/// The index of the cell `(x, y)` in the storage of a grid `width` wide.
pub fn index(width: usize, height: usize, x: usize, y: usize) -> (i: usize)
    requires
        x < width,
        y < height,
        width * height <= usize::MAX,
    ensures
        i == x + y * width,
        i < width * height,
{
    proof {
        lemma_index_in_bounds(x as int, y as int, width as int, height as int);
    }
    x + y * width
}

/// What becomes of a cell that holds `cur` and has the deck `deck`: a void cell and a
/// cell with an empty deck stay as they are, any other cell goes to the faction whose
/// entry the stream of the cell draws.
pub open spec fn settled(seed: Seed, x: usize, y: usize, cur: Faction, deck: Seq<usize>) -> Faction {
    if cur is Void || deck.len() == 0 {
        cur
    } else {
        Faction::Faction(deck[(cell_draw(seed, x, y) as int) % (deck.len() as int)])
    }
}

/// What the cell `(x, y)` holds after a step with the seed `seed`.
pub open spec fn next_cell(
    seed: Seed,
    width: int,
    height: int,
    cells: Seq<Faction>,
    x: int,
    y: int,
) -> Faction {
    settled(seed, x as usize, y as usize, cells[x + y * width], deck(width, height, cells, x, y))
}

/// The row `y` after a step with the seed `seed`.
pub open spec fn next_row(seed: Seed, width: int, height: int, cells: Seq<Faction>, y: int) -> Seq<
    Faction,
> {
    Seq::new(width as nat, |x: int| next_cell(seed, width, height, cells, x, y))
}

/// The grid after a step with the seed `seed`.
pub open spec fn next_cells(seed: Seed, width: int, height: int, cells: Seq<Faction>) -> Seq<
    Faction,
> {
    Seq::new(cells.len(), |i: int| next_cell(seed, width, height, cells, i % width, i / width))
}

/// The seed of the step that follows a step with the seed `seed`.
pub open spec fn next_seed(seed: Seed) -> Seed {
    seed.wrapping_mul(LEHMER_MULT4)
}

/// What a cell that holds `cur` and has the deck `deck` becomes.
pub fn settle(seed: Seed, x: usize, y: usize, cur: Faction, deck: &StaticVec<usize>) -> (f: Faction)
    ensures
        f == settled(seed, x, y, cur, deck@),
{
    match cur {
        Faction::Void => cur,
        _ => {
            if deck.is_empty() {
                cur
            } else {
                let mut rng = PerCellRng::new(seed, x, y);
                Faction::Faction(select(deck, rng.advance()))
            }
        },
    }
}

/// The holder of the cell at the index `i`.
fn held(prev: &[Faction], i: usize) -> (o: Option<usize>)
    requires
        i < prev@.len(),
    ensures
        o == match prev@[i as int] {
            Faction::Faction(id) => Some(id),
            _ => None::<usize>,
        },
{
    match prev[i] {
        Faction::Faction(id) => Some(id),
        _ => None,
    }
}

/// Settles the cell `(x, y)` by itself. It looks only at those cells of the window that
/// lie inside the grid.
pub fn cell_tick(seed: Seed, x: usize, y: usize, width: usize, height: usize, prev: &[Faction]) -> (f:
    Faction)
    requires
        x < width,
        y < height,
        prev@.len() == width * height,
    ensures
        f == next_cell(seed, width as int, height as int, prev@, x as int, y as int),
{
    let mut deck: StaticVec<usize> = StaticVec::new();
    proof {
        vstd::slice::axiom_spec_len(prev);
    }
    let mut k: usize = 0;
    while k < 9
        invariant
            k <= 9,
            x < width,
            y < height,
            prev@.len() == width * height,
            width * height <= usize::MAX,
            deck@ == deck_upto(width as int, height as int, prev@, x as int, y as int, k as nat),
        decreases 9 - k,
    {
        let col = k % 3;
        let row = k / 3;
        proof {
            lemma_deck_step(width as int, height as int, prev@, x as int, y as int, k as nat);
        }
        let inside = !(col == 0 && x == 0) && !(col == 2 && x == width - 1) && !(row == 0 && y
            == 0) && !(row == 2 && y == height - 1);
        if inside {
            let i = index(width, height, x + col - 1, y + row - 1);
            if let Some(id) = held(prev, i) {
                deck.push(id);
            }
        }
        k += 1;
    }
    let i = index(width, height, x, y);
    settle(seed, x, y, prev[i], &deck)
}

/// How many cells of the window of lane `j` the scan of a group has passed when it
/// stands at the column `c` of a row. The scan runs over six columns, and the window of
/// lane `j` is the columns `j`, `j + 1` and `j + 2`.
pub open spec fn lane_seen(c: int, j: int) -> int {
    if c <= j {
        0
    } else if c >= j + 3 {
        3
    } else {
        c - j
    }
}

/// Deals what the scan of a group found at the column `c` of the row `r` to the deck of
/// lane `j`, if the cell lies in the window of that lane.
fn deal(
    deck: &mut StaticVec<usize>,
    found: Option<usize>,
    c: usize,
    j: usize,
    r: usize,
    Ghost(width): Ghost<int>,
    Ghost(height): Ghost<int>,
    Ghost(cells): Ghost<Seq<Faction>>,
    Ghost(x): Ghost<int>,
    Ghost(y): Ghost<int>,
)
    requires
        j <= 3,
        c < 6,
        r < 3,
        found == owner(width, height, cells, x - j + c - 1, y + r - 1),
        old(deck)@ == deck_upto(width, height, cells, x, y, (3 * r + lane_seen(c as int, j as int)) as nat),
    ensures
        final(deck)@ == deck_upto(
            width,
            height,
            cells,
            x,
            y,
            (3 * r + lane_seen(c + 1, j as int)) as nat,
        ),
{
    if j <= c && c <= j + 2 {
        proof {
            let k = (3 * r + c - j) as nat;
            assert(k as int % 3 == c - j);
            assert(k as int / 3 == r);
            lemma_deck_step(width, height, cells, x, y, k);
        }
        if let Some(id) = found {
            deck.push(id);
        }
    }
}

/// Settles the four cells of the row `y` that begin at the column `gx`. The windows of
/// four neighbouring cells overlap, so the group reads its 3 by 6 cells once and deals
/// every holder that it finds to the decks of the cells that it is a neighbour of. No
/// cell of the group lies in the first or the last column, so every column that is read
/// exists; a row above or below that does not exist is left out.
fn group_tick(seed: Seed, gx: usize, y: usize, width: usize, height: usize, prev: &[Faction]) -> (f:
    [Faction; 4])
    requires
        1 <= gx,
        gx + 4 < width,
        y < height,
        prev@.len() == width * height,
    ensures
        forall|j: int|
            0 <= j < 4 ==> #[trigger] f@[j] == next_cell(
                seed,
                width as int,
                height as int,
                prev@,
                gx + j,
                y as int,
            ),
{
    let mut deck0: StaticVec<usize> = StaticVec::new();
    let mut deck1: StaticVec<usize> = StaticVec::new();
    let mut deck2: StaticVec<usize> = StaticVec::new();
    let mut deck3: StaticVec<usize> = StaticVec::new();
    proof {
        vstd::slice::axiom_spec_len(prev);
    }
    let ghost w = width as int;
    let ghost h = height as int;
    let ghost cells = prev@;
    assert(deck0@ =~= deck_upto(w, h, cells, gx + 0, y as int, 0));
    assert(deck1@ =~= deck_upto(w, h, cells, gx + 1, y as int, 0));
    assert(deck2@ =~= deck_upto(w, h, cells, gx + 2, y as int, 0));
    assert(deck3@ =~= deck_upto(w, h, cells, gx + 3, y as int, 0));
    let mut r: usize = 0;
    while r < 3
        invariant
            r <= 3,
            1 <= gx,
            gx + 4 < width,
            y < height,
            w == width,
            h == height,
            cells == prev@,
            prev@.len() == width * height,
            width * height <= usize::MAX,
            deck0@ == deck_upto(w, h, cells, gx + 0, y as int, (3 * r) as nat),
            deck1@ == deck_upto(w, h, cells, gx + 1, y as int, (3 * r) as nat),
            deck2@ == deck_upto(w, h, cells, gx + 2, y as int, (3 * r) as nat),
            deck3@ == deck_upto(w, h, cells, gx + 3, y as int, (3 * r) as nat),
        decreases 3 - r,
    {
        let row_inside = !(r == 0 && y == 0) && !(r == 2 && y == height - 1);
        let mut c: usize = 0;
        while c < 6
            invariant
                c <= 6,
                r < 3,
                1 <= gx,
                gx + 4 < width,
                y < height,
                w == width,
                h == height,
                cells == prev@,
                prev@.len() == width * height,
                width * height <= usize::MAX,
                row_inside == (0 <= y + r - 1 < height),
                deck0@ == deck_upto(w, h, cells, gx + 0, y as int, (3 * r + lane_seen(c as int, 0)) as nat),
                deck1@ == deck_upto(w, h, cells, gx + 1, y as int, (3 * r + lane_seen(c as int, 1)) as nat),
                deck2@ == deck_upto(w, h, cells, gx + 2, y as int, (3 * r + lane_seen(c as int, 2)) as nat),
                deck3@ == deck_upto(w, h, cells, gx + 3, y as int, (3 * r + lane_seen(c as int, 3)) as nat),
            decreases 6 - c,
        {
            let found = if row_inside {
                held(prev, index(width, height, gx + c - 1, y + r - 1))
            } else {
                None
            };
            deal(&mut deck0, found, c, 0, r, Ghost(w), Ghost(h), Ghost(cells), Ghost(gx + 0), Ghost(y as int));
            deal(&mut deck1, found, c, 1, r, Ghost(w), Ghost(h), Ghost(cells), Ghost(gx + 1), Ghost(y as int));
            deal(&mut deck2, found, c, 2, r, Ghost(w), Ghost(h), Ghost(cells), Ghost(gx + 2), Ghost(y as int));
            deal(&mut deck3, found, c, 3, r, Ghost(w), Ghost(h), Ghost(cells), Ghost(gx + 3), Ghost(y as int));
            c += 1;
        }
        r += 1;
    }
    let f0 = settle(seed, gx, y, prev[index(width, height, gx, y)], &deck0);
    let f1 = settle(seed, gx + 1, y, prev[index(width, height, gx + 1, y)], &deck1);
    let f2 = settle(seed, gx + 2, y, prev[index(width, height, gx + 2, y)], &deck2);
    let f3 = settle(seed, gx + 3, y, prev[index(width, height, gx + 3, y)], &deck3);
    [f0, f1, f2, f3]
}

/// Settles the cells of the row `y` from the column 1 up to the column `corrected`, one
/// group of four after the other. The other cells of `chunk` stay as they are.
pub fn inner_tick(
    seed: Seed,
    y: usize,
    width: usize,
    height: usize,
    corrected: usize,
    prev: &[Faction],
    chunk: &mut [Faction],
)
    requires
        y < height,
        1 <= corrected < width,
        (corrected - 1) % 4 == 0,
        prev@.len() == width * height,
        old(chunk)@.len() == width,
    ensures
        final(chunk)@.len() == width,
        forall|x: int|
            1 <= x < corrected ==> #[trigger] final(chunk)@[x] == next_cell(
                seed,
                width as int,
                height as int,
                prev@,
                x,
                y as int,
            ),
        forall|x: int|
            0 <= x < width && !(1 <= x < corrected) ==> #[trigger] final(chunk)@[x] == old(
                chunk,
            )@[x],
{
    let ghost groups = (corrected - 1) / 4;
    let ghost target = next_row(seed, width as int, height as int, prev@, y as int);
    let ghost mut done: int = 0;
    let mut gx: usize = 1;
    while gx < corrected
        invariant
            gx == 1 + 4 * done,
            corrected == 1 + 4 * groups,
            0 <= done <= groups,
            y < height,
            corrected < width,
            prev@.len() == width * height,
            chunk@.len() == width,
            target == next_row(seed, width as int, height as int, prev@, y as int),
            forall|x: int| 1 <= x < gx ==> #[trigger] chunk@[x] == target[x],
            forall|x: int| 0 <= x < width && !(1 <= x < gx) ==> #[trigger] chunk@[x] == old(chunk)@[x],
        decreases corrected - gx,
    {
        let f = group_tick(seed, gx, y, width, height, prev);
        proof {
            assert(f@[0] == target[gx + 0]);
            assert(f@[1] == target[gx + 1]);
            assert(f@[2] == target[gx + 2]);
            assert(f@[3] == target[gx + 3]);
            done = done + 1;
        }
        chunk[gx] = f[0];
        chunk[gx + 1] = f[1];
        chunk[gx + 2] = f[2];
        chunk[gx + 3] = f[3];
        gx += 4;
    }
}

/// Settles the row `y` into `chunk`: the first column, the last columns and whatever
/// the groups of four leave over one cell at a time, the columns from 1 up to
/// `corrected` by groups.
pub fn row_tick(
    seed: Seed,
    y: usize,
    width: usize,
    height: usize,
    corrected: usize,
    prev: &[Faction],
    chunk: &mut [Faction],
)
    requires
        y < height,
        1 <= corrected,
        (corrected - 1) % 4 == 0,
        corrected == 1 || corrected < width,
        prev@.len() == width * height,
        old(chunk)@.len() == width,
    ensures
        final(chunk)@ == next_row(seed, width as int, height as int, prev@, y as int),
{
    let ghost target = next_row(seed, width as int, height as int, prev@, y as int);
    if width == 0 {
        assert(chunk@ =~= target);
        return ;
    }
    let first = cell_tick(seed, 0, y, width, height, prev);
    chunk[0] = first;
    if corrected < width {
        inner_tick(seed, y, width, height, corrected, prev, chunk);
    }
    let mut x: usize = corrected;
    while x < width
        invariant
            1 <= corrected <= x,
            y < height,
            prev@.len() == width * height,
            chunk@.len() == width,
            target == next_row(seed, width as int, height as int, prev@, y as int),
            forall|i: int| 0 <= i < x && i < width ==> #[trigger] chunk@[i] == target[i],
        decreases width - x,
    {
        let f = cell_tick(seed, x, y, width, height, prev);
        chunk[x] = f;
        x += 1;
    }
    assert(chunk@ =~= target);
}

/// The seed of the step that follows a step with the seed `seed`.
pub fn next_step_seed(seed: Seed) -> (s: Seed)
    ensures
        s == next_seed(seed),
{
    seed.wrapping_mul(LEHMER_MULT4)
}

/// Where the grouped path ends in a row `width` wide: behind the last whole group that
/// begins at the column 1 and leaves the last column to the single cells.
pub fn group_end(width: usize) -> (corrected: usize)
    ensures
        1 <= corrected,
        (corrected - 1) % 4 == 0,
        corrected == 1 || corrected < width,
        width >= 2 ==> width - 4 <= corrected < width,
{
    if width >= 2 {
        let groups = (width - 2) / 4;
        1 + groups * 4
    } else {
        1
    }
}

/// Settles the row `y` into its place in `next`. The rows before it stay as they are.
fn settle_row(
    seed: Seed,
    y: usize,
    width: usize,
    height: usize,
    corrected: usize,
    prev: &[Faction],
    next: &mut [Faction],
)
    requires
        y < height,
        0 < width,
        1 <= corrected,
        (corrected - 1) % 4 == 0,
        corrected == 1 || corrected < width,
        prev@.len() == width * height,
        old(next)@.len() == width * height,
    ensures
        final(next)@.len() == old(next)@.len(),
        forall|i: int| 0 <= i < y * width ==> #[trigger] final(next)@[i] == old(next)@[i],
        forall|x: int|
            0 <= x < width ==> #[trigger] final(next)@[y * width + x] == next_cell(
                seed,
                width as int,
                height as int,
                prev@,
                x,
                y as int,
            ),
{
    proof {
        vstd::slice::axiom_spec_len(prev);
        lemma_index_in_bounds(0, y as int, width as int, height as int);
        assert(y * width + width <= width * height) by (nonlinear_arith)
            requires
                y < height,
                0 < width,
        ;
    }
    let ghost before = next@;
    let (head, tail) = next.split_at_mut(y * width);
    let (row, rest) = tail.split_at_mut(width);
    row_tick(seed, y, width, height, corrected, prev, row);
    proof {
        let settled = next_row(seed, width as int, height as int, prev@, y as int);
        let first = before.subrange(0, y * width);
        let last = before.subrange(y * width, before.len() as int).subrange(
            width as int,
            before.len() - y * width,
        );
        assert(next@ == first + (settled + last));
        assert forall|x: int| 0 <= x < width implies #[trigger] next@[y * width + x] == next_cell(
            seed,
            width as int,
            height as int,
            prev@,
            x,
            y as int,
        ) by {
            assert(next@[y * width + x] == settled[x]);
        }
    }
}

/// Computes the generation that follows `prev` into `next`, row after row, and gives
/// the seed of the step after this one. Nothing is read from `next`.
pub fn tick(seed: Seed, width: usize, height: usize, prev: &[Faction], next: &mut [Faction]) -> (s:
    Seed)
    requires
        prev@.len() == width * height,
        old(next)@.len() == width * height,
    ensures
        final(next)@ == next_cells(seed, width as int, height as int, prev@),
        s == next_seed(seed),
{
    if width > 0 {
        let corrected = group_end(width);
        let mut y: usize = 0;
        while y < height
            invariant
                y <= height,
                width > 0,
                1 <= corrected,
                (corrected - 1) % 4 == 0,
                corrected == 1 || corrected < width,
                prev@.len() == width * height,
                next@.len() == width * height,
                forall|i: int|
                    0 <= i < y * width ==> #[trigger] next@[i] == next_cell(
                        seed,
                        width as int,
                        height as int,
                        prev@,
                        i % (width as int),
                        i / (width as int),
                    ),
            decreases height - y,
        {
            let ghost before = next@;
            settle_row(seed, y, width, height, corrected, prev, next);
            proof {
                assert((y + 1) * width == y * width + width) by (nonlinear_arith);
                assert forall|i: int| 0 <= i < (y + 1) * width implies #[trigger] next@[i]
                    == next_cell(
                    seed,
                    width as int,
                    height as int,
                    prev@,
                    i % (width as int),
                    i / (width as int),
                ) by {
                    if i < y * width {
                        assert(next@[i] == before[i]);
                    } else {
                        let x = i - y * width;
                        lemma_index_join(x, y as int, width as int);
                        assert(next@[y * width + x] == next_cell(
                            seed,
                            width as int,
                            height as int,
                            prev@,
                            x,
                            y as int,
                        ));
                    }
                }
            }
            y += 1;
        }
        proof {
            assert(y * width == width * height) by (nonlinear_arith)
                requires
                    y == height,
            ;
        }
    } else {
        assert(width * height == 0) by (nonlinear_arith)
            requires
                width == 0,
        ;
    }
    assert(next@ =~= next_cells(seed, width as int, height as int, prev@));
    next_step_seed(seed)
}

/// The step that a seed picks is one of the steps that the rule allows.
pub proof fn lemma_next_cells_is_step(seed: Seed, width: int, height: int, cells: Seq<Faction>)
    requires
        0 <= width,
        0 <= height,
        cells.len() == width * height,
    ensures
        is_step(width, height, cells, next_cells(seed, width, height, cells)),
{
    let after = next_cells(seed, width, height, cells);
    assert forall|x: int, y: int| 0 <= x < width && 0 <= y < height implies may_follow(
        width,
        height,
        cells,
        x,
        y,
        #[trigger] after[x + y * width],
    ) by {
        lemma_index_in_bounds(x, y, width, height);
        lemma_index_join(x, y, width);
        let d = deck(width, height, cells, x, y);
        let cur = cells[x + y * width];
        assert(after[x + y * width] == settled(seed, x as usize, y as usize, cur, d));
        if !(cur is Void || d.len() == 0) {
            let n = cell_draw(seed, x as usize, y as usize) as int;
            let j = n % (d.len() as int);
            assert(0 <= j < d.len()) by (nonlinear_arith)
                requires
                    j == n % (d.len() as int),
                    d.len() > 0,
            ;
            assert(after[x + y * width] == Faction::Faction(d[j]));
        }
    }
}

/// A simulator and its level between two steps: the seed of the next step, and the
/// cells.
pub type State = (Seed, Seq<Faction>);

/// The state `b` is what one step makes of the state `a`.
pub open spec fn follows(width: int, height: int, a: State, b: State) -> bool {
    b.0 == next_seed(a.0) && b.1 == next_cells(a.0, width, height, a.1)
}

/// Each state of `run` but the first is what one step makes of the state before it.
pub open spec fn is_run(width: int, height: int, run: Seq<State>) -> bool {
    forall|i: int| 0 <= i < run.len() - 1 ==> follows(width, height, #[trigger] run[i], run[i + 1])
}

/// Determinism: two runs that begin with the same seed and the same cells hold the
/// same seed and the same cells after any number of steps. What a step does depends on
/// nothing else, whatever the order in which the cells are settled.
pub proof fn lemma_determinism(width: int, height: int, a: Seq<State>, b: Seq<State>, n: int)
    requires
        is_run(width, height, a),
        is_run(width, height, b),
        0 <= n < a.len(),
        n < b.len(),
        a[0] == b[0],
    ensures
        a[n] == b[n],
    decreases n,
{
    if n > 0 {
        lemma_determinism(width, height, a, b, n - 1);
        assert(follows(width, height, a[n - 1], a[n - 1 + 1]));
        assert(follows(width, height, b[n - 1], b[n - 1 + 1]));
    }
}

/// The seed of a simulator that finds no random source.
pub const DEFAULT_SEED: Seed = 88172645463325252;

/// What `with_seed` makes of a seed: an odd number, which no step turns into zero,
/// spread over all its bits, so that seeds that are close to each other give runs that
/// are not.
pub open spec fn odd_seed(seed: Seed) -> Seed {
    ((seed << 1) | 1).wrapping_mul(LEHMER_MULT3)
}

/// Two levels have the same width and the same height.
pub open spec fn same_shape(a: &GridLevel<Faction>, b: &GridLevel<Faction>) -> bool {
    a.width() == b.width() && a.height() == b.height()
}

/// The faction simulator. It holds the seed of its next step and nothing else: a step
/// borrows the two levels and keeps no reference to them.
pub struct FactionGen {
    seed: Seed,
}

impl FactionGen {
    /// The seed of the next step.
    pub closed spec fn seed(&self) -> Seed {
        self.seed
    }

    /// A simulator whose first seed comes from the random source of the operating
    /// system, or is `DEFAULT_SEED` where there is none.
    pub fn new() -> (gen: FactionGen)
        ensures
            exists|seed: Seed| gen.seed() == odd_seed(seed),
    {
        let drawn = match os_rng() {
            Some(rng) => {
                let mut rng = rng;
                os_seed(&mut rng)
            },
            None => None,
        };
        match drawn {
            Some(seed) => FactionGen::with_seed(seed),
            None => FactionGen::with_seed(DEFAULT_SEED),
        }
    }

    /// A simulator whose first seed is made of `seed`. Two simulators made of the same
    /// seed do the same steps.
    pub fn with_seed(seed: Seed) -> (gen: FactionGen)
        ensures
            gen.seed() == odd_seed(seed),
    {
        FactionGen { seed: ((seed << 1) | 1).wrapping_mul(LEHMER_MULT3) }
    }

    /// The seed of the next step.
    pub fn tick_seed(&self) -> (seed: Seed)
        ensures
            seed == self.seed(),
    {
        self.seed
    }

    /// One step. Where the two levels have the same shape, `level` holds the next
    /// generation afterwards and `buffer` holds what `level` held before, and the seed
    /// has moved on. Where they have not, nothing changes and the error says so.
    pub fn generate(
        &mut self,
        level: &mut GridLevel<Faction>,
        buffer: &mut GridLevel<Faction>,
    ) -> (r: Result<(), Error>)
        ensures
            same_shape(old(level), old(buffer)) ==> {
                &&& r is Ok
                &&& final(level).width() == old(level).width()
                &&& final(level).height() == old(level).height()
                &&& final(level)@ == next_cells(
                    old(self).seed(),
                    old(level).width() as int,
                    old(level).height() as int,
                    old(level)@,
                )
                &&& is_step(
                    old(level).width() as int,
                    old(level).height() as int,
                    old(level)@,
                    final(level)@,
                )
                &&& *final(buffer) == *old(level)
                &&& final(self).seed() == next_seed(old(self).seed())
            },
            !same_shape(old(level), old(buffer)) ==> {
                &&& r == Err::<(), Error>(Error::DimensionMismatch)
                &&& *final(level) == *old(level)
                &&& *final(buffer) == *old(buffer)
                &&& *final(self) == *old(self)
            },
    {
        let width = level.get_width();
        let height = level.get_height();
        if width != buffer.get_width() || height != buffer.get_height() {
            return Err(Error::DimensionMismatch);
        }
        let mut scratch: GridLevel<Faction> = GridLevel::empty();
        core::mem::swap(buffer, &mut scratch);
        let mut cells = scratch.into_tiles();
        proof {
            lemma_next_cells_is_step(self.seed, width as int, height as int, level@);
        }
        let seed = tick(self.seed, width, height, level.as_slice(), cells.as_mut_slice());
        self.seed = seed;
        let mut next = GridLevel::with_tiles(width, cells);
        core::mem::swap(level, &mut next);
        core::mem::swap(buffer, &mut next);
        Ok(())
    }
}

} // verus!
