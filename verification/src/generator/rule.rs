//! The diffusion rule: what a cell of a territory map may become in one step.
//!
//! A void cell never changes. Any other cell has a deck: the factions that hold one of
//! its eight neighbours, each as often as it holds one, and the faction that holds the
//! cell itself. With an empty deck the cell stays as it is; otherwise it goes to one of
//! the factions of its deck. Which one is for the simulator to draw.

use vstd::prelude::*;
use crate::tile::Faction;
use crate::util::lemma_index_split;

verus! {

/// The number of the faction that holds the cell `(x, y)`: none where the cell lies
/// outside the grid, is neutral or is void.
pub open spec fn owner(width: int, height: int, cells: Seq<Faction>, x: int, y: int) -> Option<
    usize,
> {
    if 0 <= x < width && 0 <= y < height {
        match cells[x + y * width] {
            Faction::Faction(id) => Some(id),
            _ => None,
        }
    } else {
        None
    }
}

/// The holder of the `k`-th cell of the 3 by 3 window around `(x, y)`. The window is
/// counted row after row, so that its cell 4 is `(x, y)` itself.
pub open spec fn window_owner(
    width: int,
    height: int,
    cells: Seq<Faction>,
    x: int,
    y: int,
    k: int,
) -> Option<usize> {
    owner(width, height, cells, x + k % 3 - 1, y + k / 3 - 1)
}

/// The holders found in the first `k` cells of the window around `(x, y)`.
pub open spec fn deck_upto(
    width: int,
    height: int,
    cells: Seq<Faction>,
    x: int,
    y: int,
    k: nat,
) -> Seq<usize>
    decreases k,
{
    if k == 0 {
        Seq::empty()
    } else {
        let rest = deck_upto(width, height, cells, x, y, (k - 1) as nat);
        match window_owner(width, height, cells, x, y, k - 1) {
            Some(id) => rest.push(id),
            None => rest,
        }
    }
}

/// The deck of the cell `(x, y)`: one entry for each of its eight neighbours that a
/// faction holds, and one for the cell itself if a faction holds it. A faction that holds
/// several of them has as many entries.
pub open spec fn deck(width: int, height: int, cells: Seq<Faction>, x: int, y: int) -> Seq<usize> {
    deck_upto(width, height, cells, x, y, 9)
}

/// One more cell of the window adds its holder to the deck, if it has one.
pub proof fn lemma_deck_step(width: int, height: int, cells: Seq<Faction>, x: int, y: int, k: nat)
    ensures
        deck_upto(width, height, cells, x, y, k + 1) == match window_owner(
            width,
            height,
            cells,
            x,
            y,
            k as int,
        ) {
            Some(id) => deck_upto(width, height, cells, x, y, k).push(id),
            None => deck_upto(width, height, cells, x, y, k),
        },
        deck_upto(width, height, cells, x, y, k).len() <= k,
    decreases k,
{
    if k > 0 {
        lemma_deck_step(width, height, cells, x, y, (k - 1) as nat);
    }
}

/// Every entry of a deck is the holder of a cell of the window.
pub proof fn lemma_deck_members(
    width: int,
    height: int,
    cells: Seq<Faction>,
    x: int,
    y: int,
    k: nat,
    j: int,
)
    requires
        0 <= j < deck_upto(width, height, cells, x, y, k).len(),
    ensures
        exists|p: int|
            0 <= p < k && #[trigger] window_owner(width, height, cells, x, y, p) == Some(
                deck_upto(width, height, cells, x, y, k)[j],
            ),
    decreases k,
{
    if k > 0 {
        let rest = deck_upto(width, height, cells, x, y, (k - 1) as nat);
        if j < rest.len() {
            lemma_deck_members(width, height, cells, x, y, (k - 1) as nat, j);
            let p = choose|p: int|
                0 <= p < k - 1 && #[trigger] window_owner(width, height, cells, x, y, p) == Some(
                    rest[j],
                );
            assert(window_owner(width, height, cells, x, y, p) == Some(
                deck_upto(width, height, cells, x, y, k)[j],
            ));
        } else {
            assert(window_owner(width, height, cells, x, y, k - 1) == Some(
                deck_upto(width, height, cells, x, y, k)[j],
            ));
        }
    }
}

/// The holder of a cell of the window has an entry in the deck.
pub proof fn lemma_deck_contains(
    width: int,
    height: int,
    cells: Seq<Faction>,
    x: int,
    y: int,
    k: nat,
    p: int,
)
    requires
        0 <= p < k,
        window_owner(width, height, cells, x, y, p) is Some,
    ensures
        exists|j: int|
            0 <= j < deck_upto(width, height, cells, x, y, k).len() && #[trigger] deck_upto(
                width,
                height,
                cells,
                x,
                y,
                k,
            )[j] == window_owner(width, height, cells, x, y, p)->Some_0,
    decreases k,
{
    let rest = deck_upto(width, height, cells, x, y, (k - 1) as nat);
    let full = deck_upto(width, height, cells, x, y, k);
    if p < k - 1 {
        lemma_deck_contains(width, height, cells, x, y, (k - 1) as nat, p);
        let j = choose|j: int|
            0 <= j < rest.len() && #[trigger] rest[j] == window_owner(
                width,
                height,
                cells,
                x,
                y,
                p,
            )->Some_0;
        assert(full[j] == rest[j]);
    } else {
        assert(full[rest.len() as int] == window_owner(width, height, cells, x, y, p)->Some_0);
    }
}

/// A window without a holder gives an empty deck.
pub proof fn lemma_deck_empty(width: int, height: int, cells: Seq<Faction>, x: int, y: int, k: nat)
    requires
        forall|p: int| 0 <= p < k ==> #[trigger] window_owner(width, height, cells, x, y, p) is None,
    ensures
        deck_upto(width, height, cells, x, y, k).len() == 0,
    decreases k,
{
    if k > 0 {
        lemma_deck_empty(width, height, cells, x, y, (k - 1) as nat);
        assert(window_owner(width, height, cells, x, y, k - 1) is None);
    }
}

/// The cell `(x, y)` of the grid `cells` may hold `next` after one step.
pub open spec fn may_follow(
    width: int,
    height: int,
    cells: Seq<Faction>,
    x: int,
    y: int,
    next: Faction,
) -> bool {
    let cur = cells[x + y * width];
    let d = deck(width, height, cells, x, y);
    if cur is Void || d.len() == 0 {
        next == cur
    } else {
        exists|j: int| 0 <= j < d.len() && next == Faction::Faction(#[trigger] d[j])
    }
}

/// The grid `after` may follow the grid `before` in one step.
pub open spec fn is_step(width: int, height: int, before: Seq<Faction>, after: Seq<Faction>) -> bool {
    &&& after.len() == before.len()
    &&& forall|x: int, y: int|
        0 <= x < width && 0 <= y < height ==> may_follow(
            width,
            height,
            before,
            x,
            y,
            #[trigger] after[x + y * width],
        )
}

/// Conservation of identity: after a step a cell holds what it held before, or it is
/// held by a faction that held the cell itself or one of its eight neighbours before
/// the step. No step invents a faction.
pub proof fn lemma_conservation(
    width: int,
    height: int,
    before: Seq<Faction>,
    after: Seq<Faction>,
    x: int,
    y: int,
)
    requires
        before.len() == width * height,
        is_step(width, height, before, after),
        0 <= x < width,
        0 <= y < height,
    ensures
        after[x + y * width] == before[x + y * width] || exists|k: int|
            0 <= k < 9 && #[trigger] window_owner(width, height, before, x, y, k) is Some
                && after[x + y * width] == Faction::Faction(
                window_owner(width, height, before, x, y, k)->Some_0,
            ),
{
    let next = after[x + y * width];
    assert(may_follow(width, height, before, x, y, next));
    let d = deck(width, height, before, x, y);
    if !(before[x + y * width] is Void || d.len() == 0) {
        let j = choose|j: int| 0 <= j < d.len() && next == Faction::Faction(#[trigger] d[j]);
        lemma_deck_members(width, height, before, x, y, 9, j);
        let p = choose|p: int|
            0 <= p < 9 && #[trigger] window_owner(width, height, before, x, y, p) == Some(d[j]);
        assert(window_owner(width, height, before, x, y, p) is Some);
    }
}

/// Void immutability: a cell that is void before a step is void after it.
pub proof fn lemma_void_stays(
    width: int,
    height: int,
    before: Seq<Faction>,
    after: Seq<Faction>,
    x: int,
    y: int,
)
    requires
        before.len() == width * height,
        is_step(width, height, before, after),
        0 <= x < width,
        0 <= y < height,
        before[x + y * width] is Void,
    ensures
        after[x + y * width] is Void,
{
    assert(may_follow(width, height, before, x, y, after[x + y * width]));
}

/// No-neighbour stability: a neutral cell none of whose eight neighbours is held by a
/// faction before a step is neutral after it.
pub proof fn lemma_neutral_stays(
    width: int,
    height: int,
    before: Seq<Faction>,
    after: Seq<Faction>,
    x: int,
    y: int,
)
    requires
        before.len() == width * height,
        is_step(width, height, before, after),
        0 <= x < width,
        0 <= y < height,
        before[x + y * width] is Neutral,
        forall|k: int|
            0 <= k < 9 && k != 4 ==> #[trigger] window_owner(width, height, before, x, y, k) is None,
    ensures
        after[x + y * width] is Neutral,
{
    assert(may_follow(width, height, before, x, y, after[x + y * width]));
    assert(window_owner(width, height, before, x, y, 4) is None);
    lemma_deck_empty(width, height, before, x, y, 9);
}

/// A grid of void cells alone stays as it is.
pub proof fn lemma_all_void_stays(width: int, height: int, before: Seq<Faction>, after: Seq<Faction>)
    requires
        before.len() == width * height,
        0 <= width,
        0 <= height,
        is_step(width, height, before, after),
        forall|i: int| 0 <= i < before.len() ==> #[trigger] before[i] is Void,
    ensures
        after == before,
{
    assert forall|i: int| 0 <= i < before.len() implies after[i] == before[i] by {
        if width > 0 {
            lemma_index_split(i, width, height);
            let x = i % width;
            let y = i / width;
            assert(may_follow(width, height, before, x, y, after[x + y * width]));
        } else {
            assert(width * height == 0) by (nonlinear_arith)
                requires
                    width == 0,
            ;
        }
    }
    assert(after =~= before);
}

} // verus!
