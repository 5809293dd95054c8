//! The square accumulation grid that streams draw into.

use vstd::prelude::*;

verus! {

/// A `size` by `size` grid of cells, addressed `(x, y)`. Every cell starts
/// from the same value and is only ever changed one at a time.
pub struct Grid<T> {
    size: u32,
    cells: Vec<Vec<T>>,
}

impl<T> View for Grid<T> {
    type V = Seq<Seq<T>>;

    /// The cells as columns: `grid@[x][y]` is the cell at `(x, y)`.
    open spec fn view(&self) -> Seq<Seq<T>> {
        Seq::new(self.extent(), |x: int| Seq::new(self.extent(), |y: int| self.cell(x, y)))
    }
}

impl<T> Grid<T> {
    #[verifier::type_invariant]
    spec fn is_square(self) -> bool {
        &&& self.cells@.len() == self.size
        &&& forall|x: int| 0 <= x < self.size ==> (#[trigger] self.cells@[x])@.len() == self.size
    }

    /// Side length of the grid.
    pub closed spec fn extent(&self) -> nat {
        self.size as nat
    }

    /// The cell at `(x, y)`, for `0 <= x, y < extent()`.
    pub closed spec fn cell(&self, x: int, y: int) -> T {
        self.cells@[x]@[y]
    }

    /// `(x, y)` addresses a cell of a grid of side `extent`.
    pub open spec fn inside(extent: nat, x: int, y: int) -> bool {
        0 <= x < extent && 0 <= y < extent
    }

    /// Side length of the grid.
    pub fn size(&self) -> (size: u32)
        ensures
            size == self.extent(),
    {
        self.size
    }

    /// Pairs up two per-axis pixel indices into a cell address. A position
    /// addresses a cell only if both of its coordinates fell on the grid.
    pub fn locate(&self, pixel_x: Option<usize>, pixel_y: Option<usize>) -> (hit: Option<
        (usize, usize),
    >)
        ensures
            hit is Some <==> pixel_x is Some && pixel_y is Some && Self::inside(
                self.extent(),
                pixel_x->0 as int,
                pixel_y->0 as int,
            ),
            hit is Some ==> hit->0 == (pixel_x->0, pixel_y->0),
    {
        match (pixel_x, pixel_y) {
            (Some(x), Some(y)) => {
                if x < self.size as usize && y < self.size as usize {
                    Some((x, y))
                } else {
                    None
                }
            },
            _ => None,
        }
    }
}

impl<T: Copy> Grid<T> {
    /// A grid of side `size` whose every cell holds `zero`.
    pub fn new(size: u32, zero: T) -> (grid: Grid<T>)
        ensures
            grid.extent() == size,
            forall|x: int, y: int| Self::inside(size as nat, x, y) ==> grid.cell(x, y) == zero,
    {
        let mut cells: Vec<Vec<T>> = Vec::new();
        let mut x: u32 = 0;
        while x < size
            invariant
                x <= size,
                cells@.len() == x,
                forall|i: int| 0 <= i < x ==> (#[trigger] cells@[i])@.len() == size,
                forall|i: int, j: int| 0 <= i < x && 0 <= j < size ==> cells@[i]@[j] == zero,
            decreases size - x,
        {
            let mut column: Vec<T> = Vec::new();
            let mut y: u32 = 0;
            while y < size
                invariant
                    y <= size,
                    column@.len() == y,
                    forall|j: int| 0 <= j < y ==> column@[j] == zero,
                decreases size - y,
            {
                column.push(zero);
                y = y + 1;
            }
            cells.push(column);
            x = x + 1;
        }
        Grid { size, cells }
    }

    /// Reads the cell at `(x, y)`.
    pub fn get(&self, x: usize, y: usize) -> (value: T)
        requires
            Self::inside(self.extent(), x as int, y as int),
        ensures
            value == self.cell(x as int, y as int),
    {
        proof {
            use_type_invariant(self);
        }
        self.cells[x][y]
    }

    /// Replaces the cell at `(x, y)` by what `blend` makes of it and leaves
    /// every other cell as it was.
    pub fn deposit<F: FnOnce(T) -> T>(&mut self, x: usize, y: usize, blend: F)
        requires
            Self::inside(old(self).extent(), x as int, y as int),
            call_requires(blend, (old(self).cell(x as int, y as int),)),
        ensures
            deposited(*old(self), *final(self), x as int, y as int, blend),
    {
        proof {
            use_type_invariant(&*self);
        }
        let before = self.cells[x][y];
        let after = blend(before);
        put(&mut self.cells, x, y, after);
    }
}

/// `after` is `before` with the cell at `(x, y)` replaced by a result of
/// `blend` on it: the same size, and every other cell untouched.
pub open spec fn deposited<T, F: FnOnce(T) -> T>(
    before: Grid<T>,
    after: Grid<T>,
    x: int,
    y: int,
    blend: F,
) -> bool {
    &&& after.extent() == before.extent()
    &&& call_ensures(blend, (before.cell(x, y),), after.cell(x, y))
    &&& forall|i: int, j: int|
        Grid::<T>::inside(before.extent(), i, j) && (i, j) != (x, y) ==> after.cell(i, j)
            == before.cell(i, j)
}

/// A deposit is a function of the grid it is made into: with a `blend` that
/// gives one result per cell value, two deposits at one address into one
/// grid leave the same cells.
pub proof fn lemma_deposit_is_determined<T, F: FnOnce(T) -> T>(
    before: Grid<T>,
    first: Grid<T>,
    second: Grid<T>,
    x: int,
    y: int,
    blend: F,
)
    requires
        Grid::<T>::inside(before.extent(), x, y),
        deposited(before, first, x, y, blend),
        deposited(before, second, x, y, blend),
        forall|cell: T, a: T, b: T|
            call_ensures(blend, (cell,), a) && call_ensures(blend, (cell,), b) ==> a == b,
    ensures
        first@ == second@,
{
    assert(first@ =~~= second@);
}

/// Overwrites one element of a vector of columns.
fn put<T>(cells: &mut Vec<Vec<T>>, x: usize, y: usize, value: T)
    requires
        x < old(cells)@.len(),
        y < old(cells)@[x as int]@.len(),
    ensures
        final(cells)@.len() == old(cells)@.len(),
        final(cells)@[x as int]@ == old(cells)@[x as int]@.update(y as int, value),
        forall|i: int|
            0 <= i < old(cells)@.len() && i != x ==> final(cells)@[i] == old(cells)@[i],
    no_unwind
{
    cells[x][y] = value;
}

} // verus!
