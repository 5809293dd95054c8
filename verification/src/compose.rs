//! Tone-mapping compositor: turns a finished grid into the bytes of an RGB
//! image, one pixel per cell.

use crate::grid::Grid;
use image::{ImageBuffer, Rgb, RgbImage};
use vstd::prelude::*;

verus! {

/// An 8-bit RGB image under construction, kept in an `image::RgbImage`.
/// Nothing is known of it but what `canvas_extent` and `canvas_pixels` name.
#[verifier::external_body]
pub struct Canvas {
    img: RgbImage,
}

/// Width and height of a canvas.
pub uninterp spec fn canvas_extent(canvas: Canvas) -> (nat, nat);

/// The pixels of a canvas by coordinate `(x, y)`, each as red, green, blue:
/// what `ImageBuffer::get_pixel` reads at `(x, y)`.
pub uninterp spec fn canvas_pixels(canvas: Canvas) -> Map<(int, int), [u8; 3]>;

/// The coordinates of an image `width` wide and `height` high.
pub open spec fn coordinates(width: nat, height: nat) -> Set<(int, int)> {
    Set::new(|at: (int, int)| 0 <= at.0 < width && 0 <= at.1 < height)
}

/// The pixel at `(x, y)` in the row-major, three-bytes-per-pixel encoding
/// `bytes` of an image `width` pixels wide.
pub open spec fn pixel_at(bytes: Seq<u8>, width: nat, x: int, y: int) -> [u8; 3] {
    let first = (y * width + x) * 3;
    [bytes[first], bytes[first + 1], bytes[first + 2]]
}

/// Calls `ImageBuffer::new`, which allocates `3 * width * height` zeroed
/// bytes and records the dimensions. It panics when that length cannot be
/// allocated, which the precondition excludes.
#[verifier::external_body]
fn blank_canvas(width: u32, height: u32) -> (canvas: Canvas)
    requires
        3 * width * height <= isize::MAX,
    ensures
        canvas_extent(canvas) == (width as nat, height as nat),
        canvas_pixels(canvas).dom() == coordinates(width as nat, height as nat),
        forall|x: int, y: int|
            0 <= x < width && 0 <= y < height ==> (#[trigger] canvas_pixels(canvas)[(x, y)])@
                == seq![0u8, 0u8, 0u8],
{
    Canvas { img: ImageBuffer::new(width, height) }
}

/// Calls `ImageBuffer::put_pixel`: the pixel at `(x, y)` becomes `rgb`, every
/// other pixel and the dimensions stay. It panics for a coordinate outside
/// the image, which the precondition excludes.
#[verifier::external_body]
fn put_rgb(canvas: &mut Canvas, x: u32, y: u32, rgb: [u8; 3])
    requires
        x < canvas_extent(*old(canvas)).0,
        y < canvas_extent(*old(canvas)).1,
    ensures
        canvas_extent(*final(canvas)) == canvas_extent(*old(canvas)),
        canvas_pixels(*final(canvas)) == canvas_pixels(*old(canvas)).insert(
            (x as int, y as int),
            rgb,
        ),
{
    canvas.img.put_pixel(x, y, Rgb(rgb))
}

/// Calls `ImageBuffer::into_raw`, which hands out the underlying buffer: the
/// pixels row by row, three bytes each.
#[verifier::external_body]
fn canvas_bytes(canvas: Canvas) -> (bytes: Vec<u8>)
    ensures
        bytes@.len() == 3 * canvas_extent(canvas).0 * canvas_extent(canvas).1,
        forall|x: int, y: int|
            #![trigger pixel_at(bytes@, canvas_extent(canvas).0, x, y)]
            0 <= x < canvas_extent(canvas).0 && 0 <= y < canvas_extent(canvas).1 ==> pixel_at(
                bytes@,
                canvas_extent(canvas).0,
                x,
                y,
            ) == canvas_pixels(canvas)[(x, y)],
{
    canvas.img.into_raw()
}

/// `bytes` is the image of `grid` under `tone`: three bytes per cell, rows
/// first, and the pixel at `(x, y)` is a result of `tone` on the cell at
/// `(x, y)`.
pub open spec fn rendered<T, F: Fn(T) -> [u8; 3]>(bytes: Seq<u8>, grid: Grid<T>, tone: F) -> bool {
    &&& bytes.len() == 3 * grid.extent() * grid.extent()
    &&& forall|x: int, y: int|
        Grid::<T>::inside(grid.extent(), x, y) ==> call_ensures(
            tone,
            (grid.cell(x, y),),
            #[trigger] pixel_at(bytes, grid.extent(), x, y),
        )
}

/// `tone` gives one result per cell value.
pub open spec fn single_valued<T, F: Fn(T) -> [u8; 3]>(tone: F) -> bool {
    forall|cell: T, a: [u8; 3], b: [u8; 3]|
        call_ensures(tone, (cell,), a) && call_ensures(tone, (cell,), b) ==> a == b
}

/// Builds the output image of a grid as row-major RGB bytes: the pixel at
/// `(x, y)` is what `tone` makes of the cell at `(x, y)`, and of that cell
/// alone.
pub fn render<T: Copy, F: Fn(T) -> [u8; 3]>(grid: &Grid<T>, tone: F) -> (bytes: Vec<u8>)
    requires
        3 * grid.extent() * grid.extent() <= isize::MAX,
        forall|x: int, y: int|
            #![trigger grid.cell(x, y)]
            Grid::<T>::inside(grid.extent(), x, y) ==> call_requires(tone, (grid.cell(x, y),)),
    ensures
        rendered(bytes@, *grid, tone),
{
    let size = grid.size();
    let mut canvas = blank_canvas(size, size);
    let mut x: u32 = 0;
    while x < size
        invariant
            x <= size,
            size == grid.extent(),
            canvas_extent(canvas) == (size as nat, size as nat),
            canvas_pixels(canvas).dom() == coordinates(size as nat, size as nat),
            forall|i: int, j: int|
                #![trigger grid.cell(i, j)]
                Grid::<T>::inside(grid.extent(), i, j) ==> call_requires(tone, (grid.cell(i, j),)),
            forall|i: int, j: int|
                0 <= i < x && 0 <= j < size ==> call_ensures(
                    tone,
                    (grid.cell(i, j),),
                    #[trigger] canvas_pixels(canvas)[(i, j)],
                ),
        decreases size - x,
    {
        let mut y: u32 = 0;
        while y < size
            invariant
                x < size,
                y <= size,
                size == grid.extent(),
                canvas_extent(canvas) == (size as nat, size as nat),
                canvas_pixels(canvas).dom() == coordinates(size as nat, size as nat),
                forall|i: int, j: int|
                    #![trigger grid.cell(i, j)]
                    Grid::<T>::inside(grid.extent(), i, j) ==> call_requires(
                        tone,
                        (grid.cell(i, j),),
                    ),
                forall|i: int, j: int|
                    (0 <= i < x && 0 <= j < size) || (i == x && 0 <= j < y) ==> call_ensures(
                        tone,
                        (grid.cell(i, j),),
                        #[trigger] canvas_pixels(canvas)[(i, j)],
                    ),
            decreases size - y,
        {
            let rgb = tone(grid.get(x as usize, y as usize));
            put_rgb(&mut canvas, x, y, rgb);
            y = y + 1;
        }
        x = x + 1;
    }
    canvas_bytes(canvas)
}

/// Each pixel depends on its own cell only: two grids of one size that agree
/// at `(x, y)` have images that agree at `(x, y)`, whatever their other cells
/// hold.
pub proof fn lemma_pixel_depends_on_own_cell<T, F: Fn(T) -> [u8; 3]>(
    tone: F,
    first_grid: Grid<T>,
    first: Seq<u8>,
    second_grid: Grid<T>,
    second: Seq<u8>,
    x: int,
    y: int,
)
    requires
        single_valued(tone),
        rendered(first, first_grid, tone),
        rendered(second, second_grid, tone),
        first_grid.extent() == second_grid.extent(),
        Grid::<T>::inside(first_grid.extent(), x, y),
        first_grid.cell(x, y) == second_grid.cell(x, y),
    ensures
        pixel_at(first, first_grid.extent(), x, y) == pixel_at(second, second_grid.extent(), x, y),
{
}

/// The image is a function of the grid: two renderings of one grid under a
/// single-valued `tone` are the same bytes.
pub proof fn lemma_render_is_determined<T, F: Fn(T) -> [u8; 3]>(
    tone: F,
    grid: Grid<T>,
    first: Seq<u8>,
    second: Seq<u8>,
)
    requires
        single_valued(tone),
        rendered(first, grid, tone),
        rendered(second, grid, tone),
    ensures
        first == second,
{
    let n = grid.extent() as int;
    assert forall|k: int| 0 <= k < first.len() implies first[k] == second[k] by {
        let c = k % 3;
        let p = k / 3;
        assert(p < n * n) by (nonlinear_arith)
            requires
                0 <= k < 3 * n * n,
                p == k / 3,
        ;
        assert(n > 0) by (nonlinear_arith)
            requires
                0 <= p < n * n,
                n >= 0,
        ;
        let x = p % n;
        let y = p / n;
        assert(0 <= y < n && 0 <= x < n && y * n + x == p) by (nonlinear_arith)
            requires
                0 <= p < n * n,
                n > 0,
                x == p % n,
                y == p / n,
        ;
        lemma_pixel_depends_on_own_cell(tone, grid, first, grid, second, x, y);
        let a = pixel_at(first, grid.extent(), x, y);
        let b = pixel_at(second, grid.extent(), x, y);
        assert(a@[c] == first[(y * n + x) * 3 + c]);
        assert(b@[c] == second[(y * n + x) * 3 + c]);
    }
    assert(first =~= second);
}

} // verus!
