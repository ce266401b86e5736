//! Dense row-major storage, directions and the error type shared by the crate.

use vstd::prelude::*;

verus! {

/// What can go wrong when a grid is addressed or two grids are combined.
#[derive(Clone, Copy, Debug, PartialEq, Eq, Structural)]
pub enum Error {
    /// A coordinate lies outside the grid.
    IndexOutOfBounds,
    /// Two grids that must have the same shape do not.
    DimensionMismatch,
}

/// A pair of coordinates.
#[derive(Debug, PartialEq, Eq, Structural)]
pub struct Vector<T> {
    pub x: T,
    pub y: T,
}

impl<T: Copy> Copy for Vector<T> {

}

impl<T: Copy> Clone for Vector<T> {
    fn clone(&self) -> (v: Self)
        ensures
            v == *self,
    {
        *self
    }
}

impl<T> Vector<T> {
    pub fn new(x: T, y: T) -> (v: Vector<T>)
        ensures
            v.x == x,
            v.y == y,
    {
        Vector { x, y }
    }
}

/// The cell `(x, y)` of a grid `width` wide and `height` high lies inside the storage.
pub proof fn lemma_index_in_bounds(x: int, y: int, width: int, height: int)
    requires
        0 <= x < width,
        0 <= y < height,
    ensures
        0 <= x + y * width < width * height,
{
    assert(y * width <= (height - 1) * width) by (nonlinear_arith)
        requires
            0 <= y <= height - 1,
            0 < width,
    ;
    assert((height - 1) * width == height * width - width) by (nonlinear_arith);
    assert(0 <= y * width) by (nonlinear_arith)
        requires
            0 <= y,
            0 < width,
    ;
    assert(width * height == height * width) by (nonlinear_arith);
}

/// Every index of the storage is the index of exactly one cell `(i % width, i / width)`.
pub proof fn lemma_index_split(i: int, width: int, height: int)
    requires
        0 <= i < width * height,
        0 < width,
    ensures
        0 <= i % width < width,
        0 <= i / width < height,
        i == i % width + (i / width) * width,
{
    assert(i == width * (i / width) + i % width && 0 <= i % width < width) by (nonlinear_arith)
        requires
            0 < width,
    ;
    assert(0 <= i / width) by (nonlinear_arith)
        requires
            0 <= i,
            0 < width,
    ;
    assert(i / width < height) by (nonlinear_arith)
        requires
            i < width * height,
            0 < width,
            i == width * (i / width) + i % width,
            0 <= i % width,
    ;
    assert(width * (i / width) == (i / width) * width) by (nonlinear_arith);
}

/// The index `x + y * width` belongs to the cell `(x, y)` and to no other.
pub proof fn lemma_index_join(x: int, y: int, width: int)
    requires
        0 <= x < width,
        0 <= y,
    ensures
        (x + y * width) % width == x,
        (x + y * width) / width == y,
{
    let i = x + y * width;
    assert(i == width * (i / width) + i % width && 0 <= i % width < width) by (nonlinear_arith)
        requires
            0 < width,
    ;
    assert(i / width == y) by (nonlinear_arith)
        requires
            i == x + y * width,
            i == width * (i / width) + i % width,
            0 <= i % width < width,
            0 <= x < width,
    ;
    assert(i % width == x) by (nonlinear_arith)
        requires
            i == x + y * width,
            i == width * (i / width) + i % width,
            i / width == y,
    ;
}

/// How many of the cells meet the condition `f`.
pub open spec fn count<T>(cells: Seq<T>, f: spec_fn(T) -> bool) -> nat
    decreases cells.len(),
{
    if cells.len() == 0 {
        0
    } else {
        count(cells.drop_last(), f) + (if f(cells.last()) {
            1nat
        } else {
            0nat
        })
    }
}

/// Where every cell of `b` that meets `f` stands in the place of a cell of `a` that
/// meets it, no more cells of `b` meet it than of `a`.
pub proof fn lemma_count_le<T>(a: Seq<T>, b: Seq<T>, f: spec_fn(T) -> bool)
    requires
        a.len() == b.len(),
        forall|j: int| 0 <= j < b.len() && f(#[trigger] b[j]) ==> f(a[j]),
    ensures
        count(b, f) <= count(a, f),
    decreases a.len(),
{
    if a.len() > 0 {
        assert forall|j: int| 0 <= j < b.drop_last().len() && f(
            #[trigger] b.drop_last()[j],
        ) implies f(a.drop_last()[j]) by {
            assert(b.drop_last()[j] == b[j]);
        }
        lemma_count_le(a.drop_last(), b.drop_last(), f);
        assert(b.last() == b[b.len() - 1]);
    }
}

/// Where moreover one cell of `a` meets `f` and the cell in its place in `b` does not,
/// fewer cells of `b` meet it than of `a`.
pub proof fn lemma_count_lt<T>(a: Seq<T>, b: Seq<T>, f: spec_fn(T) -> bool, i: int)
    requires
        a.len() == b.len(),
        forall|j: int| 0 <= j < b.len() && f(#[trigger] b[j]) ==> f(a[j]),
        0 <= i < a.len(),
        f(a[i]),
        !f(b[i]),
    ensures
        count(b, f) < count(a, f),
    decreases a.len(),
{
    assert forall|j: int| 0 <= j < b.drop_last().len() && f(#[trigger] b.drop_last()[j]) implies f(
        a.drop_last()[j],
    ) by {
        assert(b.drop_last()[j] == b[j]);
    }
    assert(b.last() == b[b.len() - 1]);
    if i == a.len() - 1 {
        lemma_count_le(a.drop_last(), b.drop_last(), f);
    } else {
        lemma_count_lt(a.drop_last(), b.drop_last(), f, i);
    }
}

/// A storage of `len` cells divides into rows of `width` cells.
pub open spec fn fits_width(width: nat, len: nat) -> bool {
    if width == 0 {
        len == 0
    } else {
        len % width == 0
    }
}

/// The number of rows into which a storage of `len` cells divides at `width` cells a row.
pub open spec fn shape_height(width: nat, len: nat) -> nat {
    if width == 0 {
        0
    } else {
        len / width
    }
}

/// Flat row-major storage of `width * height` values: the cell `(x, y)` is the value
/// at index `x + y * width`. A grid without columns has no rows either.
pub struct Grid<T> {
    data: Vec<T>,
    width: usize,
}

impl<T> Grid<T> {
    #[verifier::type_invariant]
    spec fn shaped(&self) -> bool {
        if self.width == 0 {
            self.data@.len() == 0
        } else {
            self.data@.len() % (self.width as nat) == 0
        }
    }

    /// The cells, row after row.
    pub closed spec fn view(&self) -> Seq<T> {
        self.data@
    }

    /// The number of columns.
    pub closed spec fn width(&self) -> nat {
        self.width as nat
    }

    /// The number of rows.
    pub closed spec fn height(&self) -> nat {
        if self.width == 0 {
            0
        } else {
            self.data@.len() / (self.width as nat)
        }
    }

    /// The cell at `(x, y)`, for coordinates inside the grid.
    pub open spec fn at(&self, x: int, y: int) -> T
        recommends
            0 <= x < self.width(),
            0 <= y < self.height(),
    {
        self@[x + y * self.width()]
    }

    /// The coordinates lie inside the grid.
    pub open spec fn contains(&self, x: int, y: int) -> bool {
        0 <= x < self.width() && 0 <= y < self.height()
    }

    proof fn lemma_shape(&self)
        requires
            self.shaped(),
        ensures
            self@.len() == self.width() * self.height(),
    {
        if self.width != 0 {
            let w = self.width as int;
            let n = self.data@.len() as int;
            assert(n == w * (n / w) + n % w) by (nonlinear_arith)
                requires
                    0 < w,
            ;
        } else {
            assert(self.width() * self.height() == 0) by (nonlinear_arith)
                requires
                    self.width() == 0,
            ;
        }
    }

    pub fn get_width(&self) -> (w: usize)
        ensures
            w == self.width(),
    {
        self.width
    }

    pub fn get_height(&self) -> (h: usize)
        ensures
            h == self.height(),
            h == shape_height(self.width(), self@.len()),
            self@.len() == self.width() * self.height(),
            self@.len() <= usize::MAX,
    {
        proof {
            use_type_invariant(self);
            self.lemma_shape();
        }
        let len = self.data.len();
        if self.width == 0 {
            0
        } else {
            len / self.width
        }
    }

    /// The cell at `(x, y)`, or `IndexOutOfBounds` for coordinates outside the grid.
    pub fn get(&self, x: usize, y: usize) -> (r: Result<&T, Error>)
        ensures
            self.contains(x as int, y as int) ==> r == Ok::<&T, Error>(&self.at(x as int, y as int)),
            !self.contains(x as int, y as int) ==> r == Err::<&T, Error>(Error::IndexOutOfBounds),
    {
        let h = self.get_height();
        if x < self.width && y < h {
            proof {
                lemma_index_in_bounds(x as int, y as int, self.width as int, h as int);
            }
            Ok(&self.data[x + y * self.width])
        } else {
            Err(Error::IndexOutOfBounds)
        }
    }

    /// The cell at `(x, y)` for writing, or `IndexOutOfBounds` for coordinates outside
    /// the grid. Whatever is written through the reference, the other cells and the
    /// shape of the grid stay as they are.
    pub fn get_mut(&mut self, x: usize, y: usize) -> (r: Result<&mut T, Error>)
        ensures
            final(self).width() == old(self).width(),
            final(self).height() == old(self).height(),
            old(self).contains(x as int, y as int) ==> r is Ok && *r->Ok_0 == old(self).at(
                x as int,
                y as int,
            ) && final(self)@ == old(self)@.update(
                x + y * old(self).width(),
                *final(r->Ok_0),
            ),
            !old(self).contains(x as int, y as int) ==> r == Err::<&mut T, Error>(
                Error::IndexOutOfBounds,
            ) && final(self)@ == old(self)@,
    {
        proof {
            use_type_invariant(&*self);
        }
        let h = self.get_height();
        if x < self.width && y < h {
            proof {
                lemma_index_in_bounds(x as int, y as int, self.width as int, h as int);
            }
            let i = x + y * self.width;
            let r = &mut self.data[i];
            assert(after_borrow(self.data)@.len() == old(self).data@.len());
            Ok(r)
        } else {
            Err(Error::IndexOutOfBounds)
        }
    }

    /// The cells as one slice, row after row.
    pub fn as_slice(&self) -> (s: &[T])
        ensures
            s@ == self@,
            self@.len() == self.width() * self.height(),
    {
        proof {
            use_type_invariant(self);
            self.lemma_shape();
        }
        self.data.as_slice()
    }

    /// A grid without cells.
    pub fn empty() -> (g: Grid<T>)
        ensures
            g.width() == 0,
            g.height() == 0,
            g@.len() == 0,
    {
        Grid { data: Vec::new(), width: 0 }
    }

    /// The grid `width` wide whose cells are `cells`, row after row, or
    /// `DimensionMismatch` where `cells` does not divide into rows of that width.
    pub fn from_cells(width: usize, cells: Vec<T>) -> (r: Result<Grid<T>, Error>)
        ensures
            fits_width(width as nat, cells@.len()) ==> r is Ok && r->Ok_0@ == cells@
                && r->Ok_0.width() == width && r->Ok_0@.len() == r->Ok_0.width()
                * r->Ok_0.height(),
            !fits_width(width as nat, cells@.len()) ==> r is Err && r->Err_0
                == Error::DimensionMismatch,
    {
        let fits = if width == 0 {
            cells.len() == 0
        } else {
            cells.len() % width == 0
        };
        if fits {
            let g = Grid { data: cells, width: width };
            proof {
                g.lemma_shape();
            }
            Ok(g)
        } else {
            Err(Error::DimensionMismatch)
        }
    }

    /// The grid `width` wide whose cells are `cells`, row after row.
    pub fn with_cells(width: usize, cells: Vec<T>) -> (g: Grid<T>)
        requires
            fits_width(width as nat, cells@.len()),
        ensures
            g@ == cells@,
            g.width() == width,
            g.height() == shape_height(width as nat, cells@.len()),
            g@.len() == g.width() * g.height(),
    {
        let g = Grid { data: cells, width: width };
        proof {
            g.lemma_shape();
        }
        g
    }

    /// The storage of the grid, row after row.
    pub fn into_cells(self) -> (cells: Vec<T>)
        ensures
            cells@ == self@,
            fits_width(self.width(), cells@.len()),
            cells@.len() == self.width() * self.height(),
    {
        proof {
            use_type_invariant(&self);
            self.lemma_shape();
        }
        self.data
    }
}

impl<T: Clone> Grid<T> {
    /// Overwrites every cell with a clone of `thing`.
    pub fn fill(&mut self, thing: T)
        ensures
            final(self).width() == old(self).width(),
            final(self).height() == old(self).height(),
            final(self)@.len() == old(self)@.len(),
            forall|i: int| 0 <= i < final(self)@.len() ==> cloned(thing, #[trigger] final(self)@[i]),
    {
        proof {
            use_type_invariant(&*self);
        }
        let len = self.data.len();
        let mut i: usize = 0;
        while i < len
            invariant
                i <= len,
                len == self.data@.len(),
                self.data@.len() == old(self).data@.len(),
                self.width == old(self).width,
                old(self).shaped(),
                forall|j: int| 0 <= j < i ==> cloned(thing, #[trigger] self.data@[j]),
            decreases len - i,
        {
            self.data[i] = thing.clone();
            i += 1;
        }
    }

    /// A grid whose every cell is a clone of `thing`.
    pub fn new_filled_with(thing: T, width: usize, height: usize) -> (g: Grid<T>)
        requires
            width * height <= usize::MAX,
        ensures
            g.width() == width,
            g.height() == (if width == 0 { 0 } else { height as nat }),
            g@.len() == g.width() * g.height(),
            forall|i: int| 0 <= i < g@.len() ==> cloned(thing, #[trigger] g@[i]),
    {
        proof {
            lemma_filled_shape(width as int, height as int);
        }
        Grid { data: vec![thing; width * height], width: width }
    }
}

impl<T: Default + Clone> Grid<T> {
    /// A grid whose every cell is a clone of the default value of `T`.
    pub fn new(width: usize, height: usize) -> (g: Grid<T>)
        requires
            width * height <= usize::MAX,
        ensures
            g.width() == width,
            g.height() == (if width == 0 { 0 } else { height as nat }),
            g@.len() == g.width() * g.height(),
            exists|d: T| #[trigger] call_ensures(T::default, (), d) && forall|i: int| 0 <= i < g@.len() ==> cloned(d, #[trigger] g@[i]),
    {
        let d: T = Default::default();
        proof {
            lemma_filled_shape(width as int, height as int);
        }
        Grid { data: vec![d; width * height], width: width }
    }
}

impl<T: Clone> Clone for Grid<T> {
    /// A grid of the same shape with a storage of its own, each cell a clone of the
    /// cell it was made from.
    fn clone(&self) -> (g: Self)
        ensures
            g.width() == self.width(),
            g.height() == self.height(),
            g@.len() == self@.len(),
            forall|i: int| 0 <= i < self@.len() ==> cloned(#[trigger] self@[i], g@[i]),
    {
        proof {
            use_type_invariant(self);
        }
        Grid { data: self.data.clone(), width: self.width }
    }
}

proof fn lemma_filled_shape(width: int, height: int)
    requires
        0 <= width,
        0 <= height,
    ensures
        width == 0 ==> width * height == 0,
        width > 0 ==> (width * height) % width == 0 && (width * height) / width == height,
{
    if width > 0 {
        let n = width * height;
        assert(n == width * (n / width) + n % width && 0 <= n % width < width) by (nonlinear_arith)
            requires
                0 < width,
        ;
        assert(n / width == height && n % width == 0) by (nonlinear_arith)
            requires
                n == width * height,
                n == width * (n / width) + n % width,
                0 <= n % width < width,
                0 < width,
        ;
    } else {
        assert(width * height == 0) by (nonlinear_arith)
            requires
                width == 0,
        ;
    }
}

/// The eight directions of the compass. `Up` is the direction of growing `y`.
#[derive(Clone, Copy, Debug, PartialEq, Eq, Structural)]
pub enum Direction {
    Up,
    Down,
    Left,
    Right,
    Ur,
    Dr,
    Dl,
    Ul,
}

impl Direction {
    /// The step that the direction takes, as `(dx, dy)`.
    pub open spec fn offset(self) -> (int, int) {
        match self {
            Direction::Up => (0, 1),
            Direction::Down => (0, -1),
            Direction::Left => (-1, 0),
            Direction::Right => (1, 0),
            Direction::Ur => (1, 1),
            Direction::Dr => (1, -1),
            Direction::Dl => (-1, -1),
            Direction::Ul => (-1, 1),
        }
    }

    pub fn get_vec(&self) -> (v: Vector<isize>)
        ensures
            (v.x as int, v.y as int) == self.offset(),
    {
        let (x, y) = self.get_tuple();
        Vector::new(x, y)
    }

    pub fn get_tuple(&self) -> (t: (isize, isize))
        ensures
            (t.0 as int, t.1 as int) == self.offset(),
    {
        match *self {
            Direction::Up => (0, 1),
            Direction::Down => (0, -1),
            Direction::Left => (-1, 0),
            Direction::Right => (1, 0),
            Direction::Ur => (1, 1),
            Direction::Dr => (1, -1),
            Direction::Dl => (-1, -1),
            Direction::Ul => (-1, 1),
        }
    }

    /// The four directions along the axes.
    pub open spec fn orthogonal() -> Seq<Direction> {
        seq![Direction::Up, Direction::Down, Direction::Left, Direction::Right]
    }

    /// All eight directions, those along the axes first.
    pub open spec fn all() -> Seq<Direction> {
        seq![
            Direction::Up,
            Direction::Down,
            Direction::Left,
            Direction::Right,
            Direction::Dl,
            Direction::Dr,
            Direction::Ul,
            Direction::Ur,
        ]
    }

    pub fn get_orthogonal_dirs() -> (dirs: [Direction; 4])
        ensures
            dirs@ == Self::orthogonal(),
    {
        let dirs = [Direction::Up, Direction::Down, Direction::Left, Direction::Right];
        assert(dirs@ =~= Self::orthogonal());
        dirs
    }

    pub fn get_dirs() -> (dirs: [Direction; 8])
        ensures
            dirs@ == Self::all(),
    {
        let dirs = [
            Direction::Up,
            Direction::Down,
            Direction::Left,
            Direction::Right,
            Direction::Dl,
            Direction::Dr,
            Direction::Ul,
            Direction::Ur,
        ];
        assert(dirs@ =~= Self::all());
        dirs
    }
}

} // verus!
