//! Frame scheduling and reassembly.
//!
//! A [`Renderer`] turns a per-pixel coloring function into a full frame in
//! row-major order: rows are split into contiguous bands, one band per
//! worker, each band is colored independently (in lane-width batches, the
//! trailing partial batch padded and its extra outputs dropped), and the
//! bands are reassembled in band order. The contract of [`Renderer::render`]
//! pins every pixel of the frame to the coloring function alone, so neither
//! the worker count nor any scheduling or completion order can change a
//! single pixel.

use vstd::prelude::*;
use vstd::arithmetic::div_mod::{
    lemma_fundamental_div_mod, lemma_fundamental_div_mod_converse_div,
    lemma_fundamental_div_mod_converse_mod, lemma_mod_division_less_than_divisor,
};
use vstd::arithmetic::mul::{
    lemma_mul_inequality, lemma_mul_is_commutative, lemma_mul_is_distributive_add_other_way,
};
use crate::color::Rgb;
use crate::simd::SIMD_LEN;
use rayon::iter::{IndexedParallelIterator, IntoParallelRefIterator, ParallelIterator};

verus! {

/// A pixel-coloring function that workers may share: pure, total, and
/// described exactly by its own `color_spec`.
pub trait FnSync: Sized + Sync {
    /// The color this function assigns to the pixel at column `x`, row `y`.
    /// The default leaves the assignment unspecified; implementations in
    /// need of the renderer's pixel-exact contract refine it.
    open spec fn color_spec(&self, x: int, y: int) -> Rgb {
        arbitrary()
    }

    /// Colors one lane-width batch of pixel coordinates, lane by lane.
    fn color_batch(&self, xs: &Vec<usize>, ys: &Vec<usize>) -> (colors: Vec<Rgb>)
        requires
            xs@.len() == SIMD_LEN,
            ys@.len() == SIMD_LEN,
        ensures
            colors@.len() == SIMD_LEN,
            forall|l: int| 0 <= l < SIMD_LEN
                ==> colors@[l] == self.color_spec(xs@[l] as int, ys@[l] as int),
    ;
}

/// A position-keyed test pattern: every channel is derived from the pixel
/// coordinates alone, so any mistake in pixel order or placement shows up
/// as a changed color. It exercises the scheduling machinery without a
/// numeric iteration rule behind it.
pub struct CoordinateColor;

impl FnSync for CoordinateColor {
    open spec fn color_spec(&self, x: int, y: int) -> Rgb {
        Rgb((x % 256) as u8, (y % 256) as u8, ((x + y) % 256) as u8)
    }

    fn color_batch(&self, xs: &Vec<usize>, ys: &Vec<usize>) -> (colors: Vec<Rgb>)
    {
        let mut colors: Vec<Rgb> = Vec::with_capacity(SIMD_LEN);
        let mut l: usize = 0;
        while l < SIMD_LEN
            invariant
                xs@.len() == SIMD_LEN,
                ys@.len() == SIMD_LEN,
                l <= SIMD_LEN,
                colors@.len() == l,
                forall|j: int| 0 <= j < l
                    ==> colors@[j] == self.color_spec(xs@[j] as int, ys@[j] as int),
            decreases SIMD_LEN - l,
        {
            let x = xs[l] % 256;
            let y = ys[l] % 256;
            proof {
                vstd::arithmetic::div_mod::lemma_add_mod_noop(
                    xs@[l as int] as int,
                    ys@[l as int] as int,
                    256,
                );
            }
            colors.push(Rgb(x as u8, y as u8, ((x + y) % 256) as u8));
            l = l + 1;
        }
        colors
    }
}

/// The pixels of rows `row_start..row_end`, in row-major order, under the
/// coloring function `f`.
pub open spec fn chunk_seq<F: FnSync>(f: F, width: int, row_start: int, row_end: int) -> Seq<Rgb>
    recommends
        1 <= width,
        0 <= row_start <= row_end,
{
    Seq::new(
        ((row_end - row_start) * width) as nat,
        |k: int| f.color_spec(k % width, row_start + k / width),
    )
}

/// A whole frame: all rows of the image, in row-major order.
pub open spec fn frame_seq<F: FnSync>(f: F, width: int, height: int) -> Seq<Rgb> {
    chunk_seq(f, width, 0, height)
}

/// Position `row * width + col` of the row-major order decomposes back into
/// exactly that column and row.
pub proof fn lemma_row_major_index(width: int, row: int, col: int)
    requires
        1 <= width,
        0 <= row,
        0 <= col,
    ensures
        (row * width + col) % width == col % width,
        (row * width + col) / width == row + col / width,
{
    lemma_fundamental_div_mod(col, width);
    lemma_mod_division_less_than_divisor(col, width);
    lemma_mul_is_commutative(col / width, width);
    assert((row + col / width) * width == row * width + (col / width) * width) by {
        lemma_mul_is_distributive_add_other_way(width, row, col / width);
    }
    lemma_fundamental_div_mod_converse_mod(
        row * width + col,
        width,
        row + col / width,
        col % width,
    );
    lemma_fundamental_div_mod_converse_div(
        row * width + col,
        width,
        row + col / width,
        col % width,
    );
}

/// The frame is exactly the pixel-by-pixel scalar computation: the pixel at
/// column `x` of row `y` sits at index `y * width + x` and is the coloring
/// function applied to `(x, y)`, however many workers produced the frame.
pub proof fn lemma_frame_index<F: FnSync>(f: F, width: int, height: int, x: int, y: int)
    requires
        1 <= width,
        0 <= x < width,
        0 <= y < height,
    ensures
        0 <= y * width + x < frame_seq(f, width, height).len(),
        frame_seq(f, width, height)[y * width + x] == f.color_spec(x, y),
{
    vstd::arithmetic::mul::lemma_mul_nonnegative(y, width);
    assert((y + 1) * width == y * width + width) by {
        lemma_mul_is_distributive_add_other_way(width, y, 1);
    }
    lemma_mul_inequality(y + 1, height, width);
    lemma_row_major_index(width, y, x);
    vstd::arithmetic::div_mod::lemma_small_mod(x as nat, width as nat);
    vstd::arithmetic::div_mod::lemma_basic_div(x, width);
}

/// Adjacent row bands compose seamlessly: rendering rows `a..b` and rows
/// `b..c` separately and concatenating the two bands gives exactly the
/// rows `a..c`. This is why partitioning the image into bands, however the
/// heights are chosen, cannot change the assembled frame.
pub proof fn lemma_chunks_compose<F: FnSync>(f: F, width: int, a: int, b: int, c: int)
    requires
        1 <= width,
        0 <= a <= b <= c,
    ensures
        chunk_seq(f, width, a, b) + chunk_seq(f, width, b, c) == chunk_seq(f, width, a, c),
{
    let first = chunk_seq(f, width, a, b);
    let second = chunk_seq(f, width, b, c);
    let whole = chunk_seq(f, width, a, c);
    vstd::arithmetic::mul::lemma_mul_nonnegative(b - a, width);
    vstd::arithmetic::mul::lemma_mul_nonnegative(c - b, width);
    assert((b - a) * width + (c - b) * width == (c - a) * width) by {
        lemma_mul_is_distributive_add_other_way(width, b - a, c - b);
    }
    assert forall|k: int| 0 <= k < whole.len()
        implies (first + second)[k] == whole[k] by {
        if k >= first.len() {
            let rest = k - (b - a) * width;
            lemma_row_major_index(width, b - a, rest);
        }
    }
    assert(first + second =~= whole);
}

/// Two frames rendered under the same contract are identical, whatever
/// worker counts or scheduling produced each: both equal the one sequence
/// that the viewport and coloring function determine.
pub proof fn lemma_render_deterministic<F: FnSync>(
    f: F,
    width: int,
    height: int,
    first: Seq<Rgb>,
    second: Seq<Rgb>,
)
    requires
        first == frame_seq(f, width, height),
        second == frame_seq(f, width, height),
    ensures
        first == second,
{
}

/// Colors the rows `row_start..row_end` in row-major order, feeding the
/// coloring function lane-width batches of consecutive pixels. The trailing
/// partial batch is padded with a repeated coordinate and the padding's
/// outputs are dropped, so the result holds exactly the band's pixels.
pub fn render_chunk<F: FnSync>(
    f: &F,
    width: usize,
    row_start: usize,
    row_end: usize,
) -> (pixels: Vec<Rgb>)
    requires
        1 <= width,
        row_start <= row_end,
        row_end * width <= usize::MAX,
    ensures
        pixels@ == chunk_seq(*f, width as int, row_start as int, row_end as int),
{
    let chunk_rows = row_end - row_start;
    proof {
        lemma_mul_inequality(chunk_rows as int, row_end as int, width as int);
        vstd::arithmetic::mul::lemma_mul_nonnegative(chunk_rows as int, width as int);
    }
    let total = chunk_rows * width;
    let mut pixels: Vec<Rgb> = Vec::with_capacity(total);
    let mut k: usize = 0;
    while k < total
        invariant
            1 <= width,
            row_start <= row_end,
            total == (row_end - row_start) * width,
            total <= usize::MAX,
            k <= total,
            pixels@.len() == k,
            forall|m: int| 0 <= m < k
                ==> pixels@[m] == f.color_spec(m % width as int, row_start + m / width as int),
        decreases total - k,
    {
        let ghost batch_base = k as int;
        let mut xs: Vec<usize> = Vec::with_capacity(SIMD_LEN);
        let mut ys: Vec<usize> = Vec::with_capacity(SIMD_LEN);
        let mut l: usize = 0;
        while l < SIMD_LEN
            invariant
                1 <= width,
                row_start <= row_end,
                total == (row_end - row_start) * width,
                total <= usize::MAX,
                batch_base == k,
                k < total,
                l <= SIMD_LEN,
                xs@.len() == l,
                ys@.len() == l,
                forall|j: int| 0 <= j < l ==> ({
                    let p = if k + j < total { k + j } else { k as int };
                    #[trigger] xs@[j] == p % width as int
                        && ys@[j] == row_start + p / width as int
                }),
            decreases SIMD_LEN - l,
        {
            let p = if l < total - k {
                k + l
            } else {
                k
            };
            proof {
                assert(p < total);
                assert(((p as int) / (width as int)) < row_end - row_start) by {
                    lemma_mul_is_commutative(row_end as int - row_start as int, width as int);
                    vstd::arithmetic::div_mod::lemma_multiply_divide_lt(
                        p as int,
                        width as int,
                        row_end as int - row_start as int,
                    );
                }
            }
            xs.push(p % width);
            ys.push(row_start + p / width);
            l = l + 1;
        }
        let colors = f.color_batch(&xs, &ys);
        let mut j: usize = 0;
        while j < SIMD_LEN
            invariant
                1 <= width,
                row_start <= row_end,
                total == (row_end - row_start) * width,
                total <= usize::MAX,
                j <= SIMD_LEN,
                batch_base <= k <= total,
                k <= batch_base + j,
                colors@.len() == SIMD_LEN,
                forall|l2: int| 0 <= l2 < SIMD_LEN ==> ({
                    let p = if batch_base + l2 < total { batch_base + l2 } else { batch_base };
                    #[trigger] colors@[l2]
                        == f.color_spec(p % width as int, row_start + p / width as int)
                }),
                k == (if batch_base + j < total { batch_base + j } else { total as int }),
                pixels@.len() == k,
                forall|m: int| 0 <= m < k
                    ==> pixels@[m] == f.color_spec(m % width as int, row_start + m / width as int),
            decreases SIMD_LEN - j,
        {
            if k < total {
                pixels.push(colors[j]);
                k = k + 1;
            }
            j = j + 1;
        }
        proof {
            assert(k > batch_base);
        }
    }
    proof {
        assert(pixels@ =~= chunk_seq(*f, width as int, row_start as int, row_end as int));
    }
    pixels
}

/// Relies on rayon's `collect_into_vec` on an indexed parallel iterator,
/// which writes the mapped results in the iterator's order however the
/// workers interleave: slot `i` of the result holds the output of the
/// verified [`render_chunk`] on `bounds[i]`, whose contract gives the
/// sequence stated here.
#[verifier::external_body]
fn par_render_chunks<F: FnSync>(
    f: &F,
    width: usize,
    bounds: &Vec<(usize, usize)>,
) -> (chunks: Vec<Vec<Rgb>>)
    requires
        1 <= width,
        forall|i: int| 0 <= i < bounds@.len()
            ==> bounds@[i].0 <= bounds@[i].1 && bounds@[i].1 * width <= usize::MAX,
    ensures
        chunks@.len() == bounds@.len(),
        forall|i: int| 0 <= i < bounds@.len()
            ==> chunks@[i]@ == chunk_seq(*f, width as int, bounds@[i].0 as int, bounds@[i].1 as int),
{
    let mut chunks: Vec<Vec<Rgb>> = Vec::with_capacity(bounds.len());
    bounds
        .par_iter()
        .map(|&(row_start, row_end)| render_chunk(f, width, row_start, row_end))
        .collect_into_vec(&mut chunks);
    chunks
}

/// Worker count used when the caller does not supply one.
pub const DEFAULT_CHUNK_COUNT: usize = 16;

/// Schedules whole frames: splits the rows into contiguous bands, has the
/// bands colored independently, and reassembles them in band order.
pub struct Renderer {
    chunk_count: usize,
}

impl Renderer {
    /// How many row bands a frame is split into.
    pub closed spec fn chunks(&self) -> int {
        self.chunk_count as int
    }

    /// There is always at least one band.
    pub closed spec fn wf(&self) -> bool {
        self.chunk_count >= 1
    }

    /// A renderer with the default worker count.
    pub fn new() -> (r: Renderer)
        ensures
            r.wf(),
            r.chunks() == DEFAULT_CHUNK_COUNT,
    {
        Renderer { chunk_count: DEFAULT_CHUNK_COUNT }
    }

    /// A renderer with an explicit worker count, typically the hardware
    /// parallelism queried by the caller.
    pub fn with_chunk_count(chunk_count: usize) -> (r: Renderer)
        requires
            chunk_count >= 1,
        ensures
            r.wf(),
            r.chunks() == chunk_count,
    {
        Renderer { chunk_count }
    }

    /// Renders one whole frame: exactly `width * height` pixels in
    /// row-major order, pixel `(x, y)` at index `y * width + x` holding
    /// `f`'s color for `(x, y)`. The frame is pinned to the coloring
    /// function alone, so renders with different worker counts, or the same
    /// frame rendered twice, cannot differ in a single pixel.
    pub fn render<F: FnSync>(&self, width: usize, height: usize, f: &F) -> (frame: Vec<Rgb>)
        requires
            self.wf(),
            1 <= width,
            1 <= height,
            height * width <= usize::MAX,
        ensures
            frame@ == frame_seq(*f, width as int, height as int),
            frame@.len() == height * width,
            forall|x: int, y: int| 0 <= x < width && 0 <= y < height
                ==> frame@[y * width + x] == f.color_spec(x, y),
    {
        proof {
            vstd::arithmetic::div_mod::lemma_div_pos_is_pos(height as int, self.chunk_count as int);
            vstd::arithmetic::div_mod::lemma_fundamental_div_mod(
                height as int,
                self.chunk_count as int,
            );
            if height as int % (self.chunk_count as int) != 0 {
                vstd::arithmetic::div_mod::lemma_div_is_ordered_by_denominator(
                    height as int,
                    2,
                    self.chunk_count as int,
                );
            } else {
                if height < self.chunk_count {
                    vstd::arithmetic::div_mod::lemma_small_mod(
                        height as nat,
                        self.chunk_count as nat,
                    );
                }
                vstd::arithmetic::div_mod::lemma_div_non_zero(
                    height as int,
                    self.chunk_count as int,
                );
            }
        }
        let chunk_height = if height % self.chunk_count == 0 {
            height / self.chunk_count
        } else {
            height / self.chunk_count + 1
        };
        let mut bounds: Vec<(usize, usize)> = Vec::new();
        let mut start: usize = 0;
        while start < height
            invariant
                1 <= chunk_height,
                start <= height,
                bounds@.len() == 0 ==> start == 0,
                bounds@.len() > 0 ==> bounds@[0].0 == 0,
                bounds@.len() > 0 ==> bounds@[bounds@.len() - 1].1 == start,
                forall|i: int| 0 <= i < bounds@.len()
                    ==> (#[trigger] bounds@[i]).0 < bounds@[i].1 <= height,
                forall|i: int| 0 <= i < bounds@.len() - 1
                    ==> (#[trigger] bounds@[i]).1 == bounds@[i + 1].0,
            decreases height - start,
        {
            let end = if height - start > chunk_height {
                start + chunk_height
            } else {
                height
            };
            bounds.push((start, end));
            start = end;
        }
        proof {
            assert forall|i: int| 0 <= i < bounds@.len()
                implies bounds@[i].0 <= bounds@[i].1
                    && (#[trigger] bounds@[i]).1 * width <= usize::MAX by {
                lemma_mul_inequality(bounds@[i].1 as int, height as int, width as int);
            }
        }
        let chunks = par_render_chunks(f, width, &bounds);
        let mut frame: Vec<Rgb> = Vec::new();
        let ghost mut rows_done: int = 0;
        let mut i: usize = 0;
        while i < chunks.len()
            invariant
                1 <= width,
                1 <= height,
                height * width <= usize::MAX,
                chunks@.len() == bounds@.len(),
                bounds@.len() > 0,
                bounds@[0].0 == 0,
                bounds@[bounds@.len() - 1].1 == height,
                forall|n: int| 0 <= n < bounds@.len()
                    ==> (#[trigger] bounds@[n]).0 < bounds@[n].1 <= height,
                forall|n: int| 0 <= n < bounds@.len() - 1
                    ==> (#[trigger] bounds@[n]).1 == bounds@[n + 1].0,
                forall|n: int| 0 <= n < bounds@.len()
                    ==> chunks@[n]@ == chunk_seq(
                        *f,
                        width as int,
                        (#[trigger] bounds@[n]).0 as int,
                        bounds@[n].1 as int,
                    ),
                i <= chunks@.len(),
                rows_done == (if i == 0 { 0int } else { bounds@[i - 1].1 as int }),
                0 <= rows_done <= height,
                i < chunks@.len() ==> rows_done == bounds@[i as int].0,
                i == chunks@.len() ==> rows_done == height,
                frame@.len() == rows_done * width,
                forall|m: int| 0 <= m < frame@.len()
                    ==> frame@[m] == f.color_spec(m % width as int, m / width as int),
            decreases chunks@.len() - i,
        {
            let chunk = &chunks[i];
            let ghost row_start = bounds@[i as int].0 as int;
            let ghost row_end = bounds@[i as int].1 as int;
            let mut j: usize = 0;
            proof {
                lemma_mul_inequality(row_end, height as int, width as int);
                lemma_mul_inequality(row_start, row_end, width as int);
                vstd::arithmetic::mul::lemma_mul_nonnegative(row_end - row_start, width as int);
                lemma_mul_is_distributive_add_other_way(
                    width as int,
                    row_start,
                    row_end - row_start,
                );
            }
            while j < chunk.len()
                invariant
                    1 <= width,
                    chunk@ == chunk_seq(*f, width as int, row_start, row_end),
                    0 <= row_start <= row_end,
                    chunk@.len() == (row_end - row_start) * width,
                    rows_done == row_start,
                    j <= chunk@.len(),
                    row_end * width <= usize::MAX,
                    row_start * width + (row_end - row_start) * width == row_end * width,
                    frame@.len() == rows_done * width + j,
                    frame@.len() <= row_end * width,
                    forall|m: int| 0 <= m < frame@.len()
                        ==> frame@[m] == f.color_spec(m % width as int, m / width as int),
                decreases chunk@.len() - j,
            {
                let pix = chunk[j];
                proof {
                    lemma_row_major_index(width as int, row_start, j as int);
                }
                frame.push(pix);
                j = j + 1;
            }
            proof {
                assert(frame@.len() == row_end * width);
                rows_done = row_end;
            }
            i = i + 1;
        }
        proof {
            assert(frame@ =~= frame_seq(*f, width as int, height as int));
            lemma_mul_is_commutative(height as int, width as int);
            assert forall|x: int, y: int| 0 <= x < width && 0 <= y < height
                implies frame@[y * width as int + x] == f.color_spec(x, y) by {
                lemma_frame_index(*f, width as int, height as int, x, y);
            }
        }
        frame
    }
}

} // verus!
