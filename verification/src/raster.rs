//! Rasterizing one integration step of a stream: the segment it travels is
//! walked in unit sub-steps, and each sub-step that lands on the grid leaves a
//! contribution that depends on the stream's age at that sub-step.

use crate::grid::Grid;
use crate::lifecycle::Lifecycle;
use vstd::prelude::*;

verus! {

/// Both coordinates of `hit` are there and address `(x, y)`.
pub open spec fn lands_on(hit: (Option<usize>, Option<usize>), x: int, y: int) -> bool {
    hit.0 is Some && hit.0->0 == x && hit.1 is Some && hit.1->0 == y
}

/// `after` is `before` with at most the cell addressed by `hit` changed, to a
/// result of `blend` at `age` on its old value. A `hit` that lacks a
/// coordinate, or lies off the grid, changes nothing.
pub open spec fn marked<T, B: Fn(u64, T) -> T>(
    before: Grid<T>,
    after: Grid<T>,
    hit: (Option<usize>, Option<usize>),
    age: u64,
    blend: B,
) -> bool {
    &&& after.extent() == before.extent()
    &&& forall|x: int, y: int|
        #![trigger after.cell(x, y)]
        Grid::<T>::inside(before.extent(), x, y) ==> if lands_on(hit, x, y) {
            call_ensures(blend, (age, before.cell(x, y)), after.cell(x, y))
        } else {
            after.cell(x, y) == before.cell(x, y)
        }
}

/// The effect of sub-step `i`, drawn at `age`: the grid is marked where
/// `locate` puts the sub-step.
pub open spec fn sub_stepped<T, L: Fn(usize) -> (Option<usize>, Option<usize>), B: Fn(u64, T) -> T>(
    before: Grid<T>,
    after: Grid<T>,
    i: usize,
    age: u64,
    locate: L,
    blend: B,
) -> bool {
    exists|hit: (Option<usize>, Option<usize>)|
        #[trigger] call_ensures(locate, (i,), hit) && marked(before, after, hit, age, blend)
}

/// The effect of the first `count` sub-steps of a step begun at age
/// `first_age`: sub-step `i`, counted from one, is drawn at age
/// `first_age + i - 1`, in order.
pub open spec fn trailed<T, L: Fn(usize) -> (Option<usize>, Option<usize>), B: Fn(u64, T) -> T>(
    before: Grid<T>,
    after: Grid<T>,
    first_age: nat,
    count: usize,
    locate: L,
    blend: B,
) -> bool
    decreases count,
{
    if count == 0 {
        after@ == before@
    } else {
        exists|middle: Grid<T>|
            trailed(before, middle, first_age, (count - 1) as usize, locate, blend)
                && #[trigger] sub_stepped(
                middle,
                after,
                count,
                (first_age + count - 1) as u64,
                locate,
                blend,
            )
    }
}

/// Draws one integration step of `num_pixels` sub-steps into `grid` and
/// records it in `life`. Sub-step `i` lands where `locate(i)` says and is
/// blended in at the age the stream has reached by then; a step without
/// sub-steps still ages the stream by one.
pub fn rasterize<T: Copy, L: Fn(usize) -> (Option<usize>, Option<usize>), B: Fn(u64, T) -> T>(
    life: &mut Lifecycle,
    grid: &mut Grid<T>,
    num_pixels: usize,
    locate: L,
    blend: B,
)
    requires
        old(life)@.admits(num_pixels as nat),
        forall|i: usize| 1 <= i <= num_pixels ==> call_requires(locate, (i,)),
        forall|age: u64, cell: T| call_requires(blend, (age, cell)),
    ensures
        final(life)@ == old(life)@.advanced(num_pixels as nat),
        trailed(*old(grid), *final(grid), old(life)@.age, num_pixels, locate, blend),
{
    let ghost start = *grid;
    let mut i: usize = 0;
    while i < num_pixels
        invariant
            i <= num_pixels,
            *life == *old(life),
            life@.admits(num_pixels as nat),
            forall|k: usize| 1 <= k <= num_pixels ==> call_requires(locate, (k,)),
            forall|age: u64, cell: T| call_requires(blend, (age, cell)),
            trailed(start, *grid, life@.age, i, locate, blend),
        decreases num_pixels - i,
    {
        i = i + 1;
        let ghost middle = *grid;
        let age = life.sub_step_age(i);
        let (pixel_x, pixel_y) = locate(i);
        match grid.locate(pixel_x, pixel_y) {
            Some((x, y)) => {
                grid.deposit(x, y, |cell: T| -> (new: T)
                    ensures call_ensures(blend, (age, cell), new),
                    { blend(age, cell) });
            },
            None => {},
        }
        assert(marked(middle, *grid, (pixel_x, pixel_y), age, blend));
        assert(sub_stepped(middle, *grid, i, (life@.age + i - 1) as u64, locate, blend));
    }
    life.advance(num_pixels);
}

/// `locate` gives one landing place per sub-step.
pub open spec fn locates_once<L: Fn(usize) -> (Option<usize>, Option<usize>)>(locate: L) -> bool {
    forall|i: usize, a: (Option<usize>, Option<usize>), b: (Option<usize>, Option<usize>)|
        call_ensures(locate, (i,), a) && call_ensures(locate, (i,), b) ==> a == b
}

/// `blend` gives one result per age and cell value.
pub open spec fn blends_once<T, B: Fn(u64, T) -> T>(blend: B) -> bool {
    forall|age: u64, cell: T, a: T, b: T|
        call_ensures(blend, (age, cell), a) && call_ensures(blend, (age, cell), b) ==> a == b
}

/// A step without sub-steps leaves the grid as it was.
pub proof fn lemma_empty_trail<T, L: Fn(usize) -> (Option<usize>, Option<usize>), B: Fn(u64, T) -> T>(
    before: Grid<T>,
    after: Grid<T>,
    first_age: nat,
    locate: L,
    blend: B,
)
    requires
        trailed(before, after, first_age, 0, locate, blend),
    ensures
        after@ == before@,
{
}

/// Takes the last sub-step off a trail: the grid as it was before that
/// sub-step, and where the sub-step landed.
pub proof fn lemma_last_sub_step<
    T,
    L: Fn(usize) -> (Option<usize>, Option<usize>),
    B: Fn(u64, T) -> T,
>(before: Grid<T>, after: Grid<T>, first_age: nat, count: usize, locate: L, blend: B) -> (last: (
    Grid<T>,
    (Option<usize>, Option<usize>),
))
    requires
        count > 0,
        trailed(before, after, first_age, count, locate, blend),
    ensures
        trailed(before, last.0, first_age, (count - 1) as usize, locate, blend),
        call_ensures(locate, (count,), last.1),
        marked(last.0, after, last.1, (first_age + count - 1) as u64, blend),
{
    let age = (first_age + count - 1) as u64;
    let middle = choose|middle: Grid<T>|
        trailed(before, middle, first_age, (count - 1) as usize, locate, blend)
            && #[trigger] sub_stepped(middle, after, count, age, locate, blend);
    let hit = choose|hit: (Option<usize>, Option<usize>)|
        #[trigger] call_ensures(locate, (count,), hit) && marked(middle, after, hit, age, blend);
    (middle, hit)
}

/// A step keeps the size of the grid, and a cell that none of its sub-steps
/// lands on keeps its value.
pub proof fn lemma_trail_spares_unvisited<
    T,
    L: Fn(usize) -> (Option<usize>, Option<usize>),
    B: Fn(u64, T) -> T,
>(
    before: Grid<T>,
    after: Grid<T>,
    first_age: nat,
    count: usize,
    locate: L,
    blend: B,
    x: int,
    y: int,
)
    requires
        trailed(before, after, first_age, count, locate, blend),
        Grid::<T>::inside(before.extent(), x, y),
        forall|i: usize, hit: (Option<usize>, Option<usize>)|
            1 <= i <= count && call_ensures(locate, (i,), hit) ==> !lands_on(hit, x, y),
    ensures
        after.extent() == before.extent(),
        after.cell(x, y) == before.cell(x, y),
    decreases count,
{
    if count == 0 {
        lemma_empty_trail(before, after, first_age, locate, blend);
        assert(after@.len() == before@.len());
        assert(after@[x][y] == before@[x][y]);
    } else {
        let (middle, hit) = lemma_last_sub_step(before, after, first_age, count, locate, blend);
        lemma_trail_spares_unvisited(
            before,
            middle,
            first_age,
            (count - 1) as usize,
            locate,
            blend,
            x,
            y,
        );
        assert(!lands_on(hit, x, y));
    }
}

/// A step is a function of the grid it is drawn into: with single-valued
/// `locate` and `blend`, two drawings of one step into one grid leave the
/// same cells.
pub proof fn lemma_trail_is_determined<
    T,
    L: Fn(usize) -> (Option<usize>, Option<usize>),
    B: Fn(u64, T) -> T,
>(
    before: Grid<T>,
    first: Grid<T>,
    second: Grid<T>,
    first_age: nat,
    count: usize,
    locate: L,
    blend: B,
)
    requires
        locates_once(locate),
        blends_once(blend),
        trailed(before, first, first_age, count, locate, blend),
        trailed(before, second, first_age, count, locate, blend),
    ensures
        first@ == second@,
    decreases count,
{
    if count == 0 {
        lemma_empty_trail(before, first, first_age, locate, blend);
        lemma_empty_trail(before, second, first_age, locate, blend);
    } else {
        let (one, _) = lemma_last_sub_step(before, first, first_age, count, locate, blend);
        let (two, _) = lemma_last_sub_step(before, second, first_age, count, locate, blend);
        lemma_trail_is_determined(before, one, two, first_age, (count - 1) as usize, locate, blend);
        assert(one@.len() == two@.len());
        assert forall|x: int, y: int| Grid::<T>::inside(one.extent(), x, y) implies first.cell(x, y)
            == second.cell(x, y) by {
            assert(one@[x][y] == two@[x][y]);
        }
        assert(first@ =~~= second@);
    }
}

} // verus!
