//! The compositor: the layers of a document merged into one grid per output frame.

use vstd::prelude::*;
use crate::blend::{accum_wf, blank, finalize, lemma_over_wf, over, Accum, AccumView};
use crate::config::{frames_view, grid_view, Config, Frames, Pixel};
use crate::raster::{pixmap_views, LayerPixmap, PixmapView};

verus! {

/// A canvas of `h` rows and `w` columns, fully transparent.
pub open spec fn blank_canvas(w: nat, h: nat) -> Seq<Seq<AccumView>> {
    Seq::new(h, |r: int| Seq::new(w, |c: int| blank()))
}

/// Whether a canvas has `h` rows of `w` well-formed pixels.
pub open spec fn canvas_wf(canvas: Seq<Seq<AccumView>>, w: nat, h: nat) -> bool {
    &&& canvas.len() == h
    &&& forall|r: int| 0 <= r < h ==> (#[trigger] canvas[r]).len() == w
    &&& forall|r: int, c: int| 0 <= r < h && 0 <= c < w ==> accum_wf(#[trigger] canvas[r][c])
}

/// The canvas with the pixel at row `y` and column `x` of a source grid drawn on it. The
/// pixel lands at row `y` modulo `h` and column `x` modulo `w`.
pub open spec fn draw_pixel(
    canvas: Seq<Seq<AccumView>>,
    w: nat,
    h: nat,
    y: int,
    x: int,
    p: Pixel,
) -> Seq<Seq<AccumView>> {
    let r = y % (h as int);
    let c = x % (w as int);
    canvas.update(r, canvas[r].update(c, over(canvas[r][c], p)))
}

/// The canvas with the first `n` pixels of row `y` of a source grid drawn on it, left to
/// right.
pub open spec fn draw_row(
    canvas: Seq<Seq<AccumView>>,
    w: nat,
    h: nat,
    y: int,
    row: Seq<Pixel>,
    n: nat,
) -> Seq<Seq<AccumView>>
    decreases n,
{
    if n == 0 {
        canvas
    } else {
        draw_pixel(draw_row(canvas, w, h, y, row, (n - 1) as nat), w, h, y, n - 1, row[n - 1])
    }
}

/// The canvas with the first `n` rows of a source grid drawn on it, top to bottom.
pub open spec fn draw_rows(
    canvas: Seq<Seq<AccumView>>,
    w: nat,
    h: nat,
    grid: Seq<Seq<Pixel>>,
    n: nat,
) -> Seq<Seq<AccumView>>
    decreases n,
{
    if n == 0 {
        canvas
    } else {
        draw_row(
            draw_rows(canvas, w, h, grid, (n - 1) as nat),
            w,
            h,
            n - 1,
            grid[n - 1],
            grid[n - 1].len(),
        )
    }
}

/// The canvas with a source grid drawn on it. A grid smaller than the canvas leaves the
/// rest of the canvas as it was; one that is larger comes round again from the other edge.
/// A canvas without pixels stays as it is.
pub open spec fn draw(canvas: Seq<Seq<AccumView>>, w: nat, h: nat, grid: Seq<Seq<Pixel>>) -> Seq<
    Seq<AccumView>,
> {
    if w == 0 || h == 0 {
        canvas
    } else {
        draw_rows(canvas, w, h, grid, grid.len())
    }
}

/// The grid that a layer shows in output frame `f`: its one image, or the sub-frame `f`
/// modulo the number of sub-frames. A sub-animation without frames shows nothing.
pub open spec fn select(layer: PixmapView, f: int) -> Seq<Seq<Pixel>> {
    match layer {
        PixmapView::Still(grid) => grid,
        PixmapView::Video(grids) => if grids.len() == 0 {
            Seq::empty()
        } else {
            grids[f % (grids.len() as int)]
        },
    }
}

/// The canvas with the first `n` layers drawn on it for output frame `f`, in the order
/// given.
pub open spec fn draw_layers(
    canvas: Seq<Seq<AccumView>>,
    w: nat,
    h: nat,
    layers: Seq<PixmapView>,
    f: int,
    n: nat,
) -> Seq<Seq<AccumView>>
    decreases n,
{
    if n == 0 {
        canvas
    } else {
        draw(draw_layers(canvas, w, h, layers, f, (n - 1) as nat), w, h, select(layers[n - 1], f))
    }
}

/// The finished grid of a canvas.
pub open spec fn finish(canvas: Seq<Seq<AccumView>>) -> Seq<Seq<Pixel>> {
    Seq::new(canvas.len(), |r: int| Seq::new(canvas[r].len(), |c: int| finalize(canvas[r][c])))
}

/// Output frame `f`: all layers drawn in the order given over a transparent canvas.
pub open spec fn composite(layers: Seq<PixmapView>, w: nat, h: nat, f: int) -> Seq<Seq<Pixel>> {
    finish(draw_layers(blank_canvas(w, h), w, h, layers, f, layers.len()))
}

/// The output frames 0 to `frames - 1`.
pub open spec fn composited(layers: Seq<PixmapView>, w: nat, h: nat, frames: nat) -> Seq<
    Seq<Seq<Pixel>>,
> {
    Seq::new(frames, |f: int| composite(layers, w, h, f))
}

/// Drawing a pixel keeps the canvas well-formed, and changes the one pixel it lands on.
pub proof fn lemma_draw_pixel(
    canvas: Seq<Seq<AccumView>>,
    w: nat,
    h: nat,
    y: int,
    x: int,
    p: Pixel,
)
    requires
        canvas_wf(canvas, w, h),
        w > 0,
        h > 0,
        0 <= y,
        0 <= x,
    ensures
        canvas_wf(draw_pixel(canvas, w, h, y, x, p), w, h),
        forall|r: int, c: int|
            0 <= r < h && 0 <= c < w ==> #[trigger] draw_pixel(canvas, w, h, y, x, p)[r][c] == if r
                == y % (h as int) && c == x % (w as int) {
                over(canvas[r][c], p)
            } else {
                canvas[r][c]
            },
{
    let r0 = y % (h as int);
    let c0 = x % (w as int);
    assert(0 <= r0 < h && 0 <= c0 < w);
    lemma_over_wf(canvas[r0][c0], p);
}

/// Drawing part of a row keeps the canvas well-formed.
pub proof fn lemma_draw_row_wf(
    canvas: Seq<Seq<AccumView>>,
    w: nat,
    h: nat,
    y: int,
    row: Seq<Pixel>,
    n: nat,
)
    requires
        canvas_wf(canvas, w, h),
        w > 0,
        h > 0,
        0 <= y,
    ensures
        canvas_wf(draw_row(canvas, w, h, y, row, n), w, h),
    decreases n,
{
    if n > 0 {
        lemma_draw_row_wf(canvas, w, h, y, row, (n - 1) as nat);
        let before = draw_row(canvas, w, h, y, row, (n - 1) as nat);
        lemma_draw_pixel(before, w, h, y, n - 1, row[n - 1]);
    }
}

/// Drawing some rows keeps the canvas well-formed.
pub proof fn lemma_draw_rows_wf(
    canvas: Seq<Seq<AccumView>>,
    w: nat,
    h: nat,
    grid: Seq<Seq<Pixel>>,
    n: nat,
)
    requires
        canvas_wf(canvas, w, h),
        w > 0,
        h > 0,
    ensures
        canvas_wf(draw_rows(canvas, w, h, grid, n), w, h),
    decreases n,
{
    if n > 0 {
        lemma_draw_rows_wf(canvas, w, h, grid, (n - 1) as nat);
        lemma_draw_row_wf(
            draw_rows(canvas, w, h, grid, (n - 1) as nat),
            w,
            h,
            n - 1,
            grid[n - 1],
            grid[n - 1].len(),
        );
    }
}

/// Drawing some layers keeps the canvas well-formed.
pub proof fn lemma_draw_layers_wf(
    canvas: Seq<Seq<AccumView>>,
    w: nat,
    h: nat,
    layers: Seq<PixmapView>,
    f: int,
    n: nat,
)
    requires
        canvas_wf(canvas, w, h),
    ensures
        canvas_wf(draw_layers(canvas, w, h, layers, f, n), w, h),
    decreases n,
{
    if n > 0 {
        lemma_draw_layers_wf(canvas, w, h, layers, f, (n - 1) as nat);
        if w > 0 && h > 0 {
            let grid = select(layers[n - 1], f);
            lemma_draw_rows_wf(
                draw_layers(canvas, w, h, layers, f, (n - 1) as nat),
                w,
                h,
                grid,
                grid.len(),
            );
        }
    }
}

/// Whatever the layers are, there are as many output frames as asked for, and each has `h`
/// rows of `w` pixels.
pub proof fn lemma_composited_shape(layers: Seq<PixmapView>, w: nat, h: nat, frames: nat)
    ensures
        composited(layers, w, h, frames).len() == frames,
        forall|f: int|
            0 <= f < frames ==> (#[trigger] composited(layers, w, h, frames)[f]).len() == h,
        forall|f: int, r: int|
            0 <= f < frames && 0 <= r < h ==> (#[trigger] composited(
                layers,
                w,
                h,
                frames,
            )[f][r]).len() == w,
{
    assert forall|f: int| 0 <= f < frames implies (#[trigger] composited(
        layers,
        w,
        h,
        frames,
    )[f]).len() == h && (forall|r: int|
        0 <= r < h ==> (#[trigger] composited(layers, w, h, frames)[f][r]).len() == w) by {
        lemma_draw_layers_wf(blank_canvas(w, h), w, h, layers, f, layers.len());
    }
}

/// Whether a grid has `h` rows of `w` pixels.
pub open spec fn fills(grid: Seq<Seq<Pixel>>, w: nat, h: nat) -> bool {
    &&& grid.len() == h
    &&& forall|r: int| 0 <= r < h ==> (#[trigger] grid[r]).len() == w
}

/// Whether every pixel of a grid has alpha 255.
pub open spec fn opaque(grid: Seq<Seq<Pixel>>) -> bool {
    forall|r: int, c: int|
        0 <= r < grid.len() && 0 <= c < grid[r].len() ==> (#[trigger] grid[r][c]).3 == 255
}

/// Drawing the first `n` pixels of a row that is no wider than the canvas blends each of
/// them over the pixel at its own place and leaves the rest of the canvas alone.
pub proof fn lemma_draw_row_in_place(
    canvas: Seq<Seq<AccumView>>,
    w: nat,
    h: nat,
    y: int,
    row: Seq<Pixel>,
    n: nat,
)
    requires
        canvas_wf(canvas, w, h),
        0 <= y < h,
        n <= row.len() <= w,
    ensures
        canvas_wf(draw_row(canvas, w, h, y, row, n), w, h),
        forall|r: int, c: int|
            0 <= r < h && 0 <= c < w ==> #[trigger] draw_row(canvas, w, h, y, row, n)[r][c] == if r
                == y && c < n {
                over(canvas[r][c], row[c])
            } else {
                canvas[r][c]
            },
    decreases n,
{
    if n > 0 {
        let before = draw_row(canvas, w, h, y, row, (n - 1) as nat);
        lemma_draw_row_in_place(canvas, w, h, y, row, (n - 1) as nat);
        lemma_draw_pixel(before, w, h, y, n - 1, row[n - 1]);
        vstd::arithmetic::div_mod::lemma_small_mod(y as nat, h);
        vstd::arithmetic::div_mod::lemma_small_mod((n - 1) as nat, w);
        assert forall|r: int, c: int| 0 <= r < h && 0 <= c < w implies #[trigger] draw_row(
            canvas,
            w,
            h,
            y,
            row,
            n,
        )[r][c] == if r == y && c < n {
            over(canvas[r][c], row[c])
        } else {
            canvas[r][c]
        } by {
            assert(draw_row(canvas, w, h, y, row, n)[r][c] == draw_pixel(
                before,
                w,
                h,
                y,
                n - 1,
                row[n - 1],
            )[r][c]);
            assert(before[r][c] == if r == y && c < n - 1 {
                over(canvas[r][c], row[c])
            } else {
                canvas[r][c]
            });
        }
    }
}

/// Drawing the first `n` rows of a grid that is no larger than the canvas blends each
/// pixel over the pixel at its own place and leaves the rest of the canvas alone.
pub proof fn lemma_draw_rows_in_place(
    canvas: Seq<Seq<AccumView>>,
    w: nat,
    h: nat,
    grid: Seq<Seq<Pixel>>,
    n: nat,
)
    requires
        canvas_wf(canvas, w, h),
        n <= grid.len() <= h,
        forall|r: int| 0 <= r < grid.len() ==> (#[trigger] grid[r]).len() <= w,
    ensures
        canvas_wf(draw_rows(canvas, w, h, grid, n), w, h),
        forall|r: int, c: int|
            0 <= r < h && 0 <= c < w ==> #[trigger] draw_rows(canvas, w, h, grid, n)[r][c] == if r
                < n && c < grid[r].len() {
                over(canvas[r][c], grid[r][c])
            } else {
                canvas[r][c]
            },
    decreases n,
{
    if n > 0 {
        let before = draw_rows(canvas, w, h, grid, (n - 1) as nat);
        lemma_draw_rows_in_place(canvas, w, h, grid, (n - 1) as nat);
        assert(grid[n - 1].len() <= w);
        lemma_draw_row_in_place(before, w, h, n - 1, grid[n - 1], grid[n - 1].len());
        assert forall|r: int, c: int| 0 <= r < h && 0 <= c < w implies #[trigger] draw_rows(
            canvas,
            w,
            h,
            grid,
            n,
        )[r][c] == if r < n && c < grid[r].len() {
            over(canvas[r][c], grid[r][c])
        } else {
            canvas[r][c]
        } by {
            assert(draw_rows(canvas, w, h, grid, n)[r][c] == draw_row(
                before,
                w,
                h,
                n - 1,
                grid[n - 1],
                grid[n - 1].len(),
            )[r][c]);
            assert(before[r][c] == if r < n - 1 && c < grid[r].len() {
                over(canvas[r][c], grid[r][c])
            } else {
                canvas[r][c]
            });
        }
    }
}

/// An opaque grid that fills the canvas hides what was on it: the finished canvas is the
/// grid.
pub proof fn lemma_opaque_grid_covers(
    canvas: Seq<Seq<AccumView>>,
    w: nat,
    h: nat,
    grid: Seq<Seq<Pixel>>,
)
    requires
        canvas_wf(canvas, w, h),
        fills(grid, w, h),
        opaque(grid),
    ensures
        finish(draw(canvas, w, h, grid)) == grid,
{
    let drawn = draw(canvas, w, h, grid);
    if w == 0 || h == 0 {
        assert(finish(drawn) =~~= grid);
    } else {
        lemma_draw_rows_in_place(canvas, w, h, grid, h);
        assert forall|r: int, c: int| 0 <= r < h && 0 <= c < w implies finalize(
            #[trigger] drawn[r][c],
        ) == grid[r][c] by {
            assert(drawn[r][c] == over(canvas[r][c], grid[r][c]));
            assert(grid[r][c].3 == 255);
            crate::blend::lemma_opaque_covers(canvas[r][c], grid[r][c]);
        }
        assert(finish(drawn) =~~= grid);
    }
}

/// Where the topmost layer is opaque and fills the canvas, the output frame is that layer's
/// grid, whatever lies under it.
pub proof fn lemma_opaque_top_layer(layers: Seq<PixmapView>, w: nat, h: nat, f: int)
    requires
        layers.len() > 0,
        fills(select(layers.last(), f), w, h),
        opaque(select(layers.last(), f)),
    ensures
        composite(layers, w, h, f) == select(layers.last(), f),
{
    let under = draw_layers(blank_canvas(w, h), w, h, layers, f, (layers.len() - 1) as nat);
    lemma_draw_layers_wf(blank_canvas(w, h), w, h, layers, f, (layers.len() - 1) as nat);
    lemma_opaque_grid_covers(under, w, h, select(layers.last(), f));
}

/// A single opaque layer that fills the canvas, drawn over the empty canvas, comes out
/// pixel for pixel.
pub proof fn lemma_single_opaque_layer(grid: Seq<Seq<Pixel>>, w: nat, h: nat, f: int)
    requires
        fills(grid, w, h),
        opaque(grid),
    ensures
        composite(seq![PixmapView::Still(grid)], w, h, f) == grid,
{
    lemma_opaque_top_layer(seq![PixmapView::Still(grid)], w, h, f);
}

/// Of two opaque layers that fill the canvas, back then front, only the front one shows.
pub proof fn lemma_front_layer_occludes(
    back: Seq<Seq<Pixel>>,
    front: Seq<Seq<Pixel>>,
    w: nat,
    h: nat,
    f: int,
)
    requires
        fills(back, w, h),
        opaque(back),
        fills(front, w, h),
        opaque(front),
    ensures
        composite(seq![PixmapView::Still(back), PixmapView::Still(front)], w, h, f) == front,
{
    lemma_opaque_top_layer(seq![PixmapView::Still(back), PixmapView::Still(front)], w, h, f);
}

/// Two output frames in which every layer shows the same grid are equal.
pub proof fn lemma_same_grids_same_frame(layers: Seq<PixmapView>, w: nat, h: nat, f: int, g: int)
    requires
        forall|k: int| 0 <= k < layers.len() ==> select(#[trigger] layers[k], f) == select(
            layers[k],
            g,
        ),
    ensures
        composite(layers, w, h, f) == composite(layers, w, h, g),
{
    lemma_same_grids_same_canvas(layers, w, h, f, g, layers.len());
}

/// Two output frames in which each of the first `n` layers shows the same grid have the
/// same canvas after those layers.
proof fn lemma_same_grids_same_canvas(
    layers: Seq<PixmapView>,
    w: nat,
    h: nat,
    f: int,
    g: int,
    n: nat,
)
    requires
        n <= layers.len(),
        forall|k: int| 0 <= k < layers.len() ==> select(#[trigger] layers[k], f) == select(
            layers[k],
            g,
        ),
    ensures
        draw_layers(blank_canvas(w, h), w, h, layers, f, n) == draw_layers(
            blank_canvas(w, h),
            w,
            h,
            layers,
            g,
            n,
        ),
    decreases n,
{
    if n > 0 {
        lemma_same_grids_same_canvas(layers, w, h, f, g, (n - 1) as nat);
        assert(select(layers[n - 1], f) == select(layers[n - 1], g));
    }
}

/// A sub-animation of `k` frames loops on its own: in output frame `f` it shows its
/// sub-frame `f` modulo `k`, so output frames that are `k` apart show the same sub-frame,
/// and where all sub-animations have `k` frames such output frames are equal.
pub proof fn lemma_video_loops(layers: Seq<PixmapView>, w: nat, h: nat, f: int, k: nat)
    requires
        0 <= f,
        k > 0,
        forall|i: int|
            0 <= i < layers.len() ==> (#[trigger] layers[i] matches PixmapView::Video(grids)
                ==> grids.len() == k),
    ensures
        forall|i: int|
            0 <= i < layers.len() ==> (#[trigger] layers[i] matches PixmapView::Video(grids)
                ==> select(layers[i], f) == grids[f % (k as int)]),
        composite(layers, w, h, f + k) == composite(layers, w, h, f),
        composite(layers, w, h, f) == composite(layers, w, h, f % (k as int)),
{
    vstd::arithmetic::div_mod::lemma_mod_add_multiples_vanish(f, k as int);
    vstd::arithmetic::div_mod::lemma_mod_twice(f, k as int);
    assert forall|i: int| 0 <= i < layers.len() implies select(#[trigger] layers[i], f + k)
        == select(layers[i], f) && select(layers[i], f) == select(layers[i], f % (k as int)) by {
        match layers[i] {
            PixmapView::Still(grid) => {},
            PixmapView::Video(grids) => {
                assert(grids.len() == k);
            },
        }
    }
    lemma_same_grids_same_frame(layers, w, h, f + k, f);
    lemma_same_grids_same_frame(layers, w, h, f, f % (k as int));
}

/// The pixels of a canvas as mathematical values.
pub open spec fn canvas_view(canvas: Vec<Vec<Accum>>) -> Seq<Seq<AccumView>> {
    Seq::new(canvas@.len(), |r: int| Seq::new(canvas@[r]@.len(), |c: int| canvas@[r]@[c]@))
}

/// Makes a transparent canvas.
fn new_canvas(w: usize, h: usize) -> (canvas: Vec<Vec<Accum>>)
    ensures
        canvas_view(canvas) == blank_canvas(w as nat, h as nat),
        canvas_wf(canvas_view(canvas), w as nat, h as nat),
{
    let mut canvas: Vec<Vec<Accum>> = Vec::new();
    let mut r: usize = 0;
    while r < h
        invariant
            r <= h,
            canvas@.len() == r,
            forall|i: int| 0 <= i < r ==> (#[trigger] canvas@[i])@.len() == w,
            forall|i: int, j: int|
                0 <= i < r && 0 <= j < w ==> (#[trigger] canvas@[i]@[j])@ == blank(),
        decreases h - r,
    {
        let mut row: Vec<Accum> = Vec::new();
        let mut c: usize = 0;
        while c < w
            invariant
                c <= w,
                row@.len() == c,
                forall|j: int| 0 <= j < c ==> (#[trigger] row@[j])@ == blank(),
            decreases w - c,
        {
            row.push(Accum::blank());
            c += 1;
        }
        canvas.push(row);
        r += 1;
    }
    assert(canvas_view(canvas) =~~= blank_canvas(w as nat, h as nat));
    canvas
}

/// Draws one pixel of a source grid.
fn put(canvas: &mut Vec<Vec<Accum>>, w: usize, h: usize, y: usize, x: usize, p: Pixel)
    requires
        canvas_wf(canvas_view(*old(canvas)), w as nat, h as nat),
        w > 0,
        h > 0,
    ensures
        canvas_view(*final(canvas)) == draw_pixel(
            canvas_view(*old(canvas)),
            w as nat,
            h as nat,
            y as int,
            x as int,
            p,
        ),
        canvas_wf(canvas_view(*final(canvas)), w as nat, h as nat),
{
    let ghost before = canvas_view(*canvas);
    let r = y % h;
    let c = x % w;
    assert(canvas@[r as int]@.len() == before[r as int].len());
    let next = canvas[r][c].over(p);
    canvas[r][c] = next;
    proof {
        let after = canvas_view(*canvas);
        let drawn = draw_pixel(before, w as nat, h as nat, y as int, x as int, p);
        assert(after.len() == drawn.len());
        assert forall|i: int| 0 <= i < after.len() implies after[i] =~= drawn[i] by {
            if i == r {
                assert(canvas@[i]@ == old(canvas)@[i]@.update(c as int, next));
            } else {
                assert(canvas@[i] == old(canvas)@[i]);
            }
        }
        assert(after =~= drawn);
        lemma_draw_pixel(before, w as nat, h as nat, y as int, x as int, p);
    }
}

/// Draws a source grid on the canvas.
fn draw_grid(canvas: &mut Vec<Vec<Accum>>, w: usize, h: usize, grid: &Vec<Vec<Pixel>>)
    requires
        canvas_wf(canvas_view(*old(canvas)), w as nat, h as nat),
    ensures
        canvas_view(*final(canvas)) == draw(
            canvas_view(*old(canvas)),
            w as nat,
            h as nat,
            grid_view(*grid),
        ),
        canvas_wf(canvas_view(*final(canvas)), w as nat, h as nat),
{
    if w == 0 || h == 0 {
        return ;
    }
    let ghost start = canvas_view(*canvas);
    let ghost rows = grid_view(*grid);
    let mut y: usize = 0;
    while y < grid.len()
        invariant
            y <= grid@.len(),
            w > 0,
            h > 0,
            rows == grid_view(*grid),
            canvas_view(*canvas) == draw_rows(start, w as nat, h as nat, rows, y as nat),
            canvas_wf(canvas_view(*canvas), w as nat, h as nat),
        decreases grid@.len() - y,
    {
        let ghost above = canvas_view(*canvas);
        let row = &grid[y];
        let mut x: usize = 0;
        while x < row.len()
            invariant
                x <= row@.len(),
                w > 0,
                h > 0,
                y < grid@.len(),
                row@ == rows[y as int],
                canvas_view(*canvas) == draw_row(
                    above,
                    w as nat,
                    h as nat,
                    y as int,
                    row@,
                    x as nat,
                ),
                canvas_wf(canvas_view(*canvas), w as nat, h as nat),
            decreases row@.len() - x,
        {
            put(canvas, w, h, y, x, row[x]);
            x += 1;
        }
        y += 1;
    }
}

/// Finishes every pixel of a canvas.
fn finish_canvas(canvas: &Vec<Vec<Accum>>, w: usize, h: usize) -> (grid: Vec<Vec<Pixel>>)
    requires
        canvas_wf(canvas_view(*canvas), w as nat, h as nat),
    ensures
        grid_view(grid) == finish(canvas_view(*canvas)),
{
    let ghost view = canvas_view(*canvas);
    let mut grid: Vec<Vec<Pixel>> = Vec::new();
    let mut r: usize = 0;
    while r < canvas.len()
        invariant
            r <= canvas@.len(),
            view == canvas_view(*canvas),
            canvas_wf(view, w as nat, h as nat),
            grid@.len() == r,
            forall|i: int| 0 <= i < r ==> (#[trigger] grid@[i])@ == finish(view)[i],
        decreases canvas@.len() - r,
    {
        let source = &canvas[r];
        let mut row: Vec<Pixel> = Vec::new();
        let mut c: usize = 0;
        assert(view[r as int].len() == w);
        while c < source.len()
            invariant
                c <= source@.len(),
                r < canvas@.len(),
                source == canvas@[r as int],
                view == canvas_view(*canvas),
                canvas_wf(view, w as nat, h as nat),
                source@.len() == w,
                row@.len() == c,
                forall|j: int| 0 <= j < c ==> #[trigger] row@[j] == finalize(view[r as int][j]),
            decreases source@.len() - c,
        {
            assert(accum_wf(view[r as int][c as int]));
            row.push(source[c].finalize());
            c += 1;
        }
        assert(row@ =~= finish(view)[r as int]);
        grid.push(row);
        r += 1;
    }
    assert(grid_view(grid) =~= finish(view));
    grid
}

/// Composites one output frame.
fn generate_frame(layers: &Vec<LayerPixmap>, w: usize, h: usize, f: usize) -> (grid: Vec<
    Vec<Pixel>,
>)
    ensures
        grid_view(grid) == composite(pixmap_views(layers@), w as nat, h as nat, f as int),
{
    let ghost views = pixmap_views(layers@);
    let mut canvas = new_canvas(w, h);
    let mut k: usize = 0;
    while k < layers.len()
        invariant
            k <= layers@.len(),
            views == pixmap_views(layers@),
            canvas_view(canvas) == draw_layers(
                blank_canvas(w as nat, h as nat),
                w as nat,
                h as nat,
                views,
                f as int,
                k as nat,
            ),
            canvas_wf(canvas_view(canvas), w as nat, h as nat),
        decreases layers@.len() - k,
    {
        match &layers[k] {
            LayerPixmap::Still(grid) => {
                draw_grid(&mut canvas, w, h, grid);
            },
            LayerPixmap::Video(grids) => {
                if grids.len() > 0 {
                    let ghost at = (f as int) % (grids@.len() as int);
                    assert(frames_view(*grids)[at] == grid_view(grids@[at]));
                    draw_grid(&mut canvas, w, h, &grids[f % grids.len()]);
                } else {
                    assert(draw(
                        canvas_view(canvas),
                        w as nat,
                        h as nat,
                        Seq::<Seq<Pixel>>::empty(),
                    ) == canvas_view(canvas));
                }
            },
        }
        k += 1;
    }
    finish_canvas(&canvas, w, h)
}

/// Composites the output frames. Frame `f` starts from a transparent canvas of `h` rows
/// and `w` columns. Each layer, in the order given, is drawn over it with its grid for
/// that frame: the pixel at row `y` and column `x` of the grid goes to row `y` modulo `h`
/// and column `x` modulo `w`. There are `conf.size.frames` frames.
pub fn generate_frames(conf: &Config, layers: Vec<LayerPixmap>) -> (frames: Frames)
    ensures
        frames_view(frames) == composited(
            pixmap_views(layers@),
            conf.size.w as nat,
            conf.size.h as nat,
            conf.size.frames as nat,
        ),
        frames@.len() == conf.size.frames,
        forall|f: int| 0 <= f < frames@.len() ==> (#[trigger] frames@[f])@.len() == conf.size.h,
        forall|f: int, r: int|
            0 <= f < frames@.len() && 0 <= r < conf.size.h ==> (#[trigger] frames@[f]@[r])@.len()
                == conf.size.w,
{
    let ghost views = pixmap_views(layers@);
    let w = conf.size.w;
    let h = conf.size.h;
    let mut frames: Frames = Vec::new();
    let mut f: usize = 0;
    while f < conf.size.frames
        invariant
            f <= conf.size.frames,
            views == pixmap_views(layers@),
            frames@.len() == f,
            forall|i: int|
                0 <= i < f ==> grid_view(#[trigger] frames@[i]) == composite(
                    views,
                    w as nat,
                    h as nat,
                    i,
                ),
        decreases conf.size.frames - f,
    {
        let grid = generate_frame(&layers, w, h, f);
        frames.push(grid);
        f += 1;
    }
    assert(frames_view(frames) =~= composited(
        views,
        w as nat,
        h as nat,
        conf.size.frames as nat,
    ));
    proof {
        let all = composited(views, w as nat, h as nat, conf.size.frames as nat);
        lemma_composited_shape(views, w as nat, h as nat, conf.size.frames as nat);
        assert forall|f: int| 0 <= f < frames@.len() implies (#[trigger] frames@[f])@.len()
            == h by {
            assert(all[f].len() == h);
        }
        assert forall|f: int, r: int| 0 <= f < frames@.len() && 0 <= r < h implies (
        #[trigger] frames@[f]@[r])@.len() == w by {
            assert(all[f].len() == h);
            assert(all[f][r].len() == w);
        }
    }
    frames
}

} // verus!
