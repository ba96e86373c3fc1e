//! The rasterizer: layers of characters to layers of pixels.

use vstd::prelude::*;
use crate::ast::{layer_views, ContentView, Frame, FrameView, Layer, LayerContent, LayerView};
use crate::ast::rows_view;
use crate::color::{color_of, resolve};
use crate::config::{frames_view, grid_view, Config, Frames, Pixel};
use crate::error::CompileError;
use crate::sort::{sorted_order, stable_order};

verus! {

/// The pixels of a layer: one grid, or one grid per frame of its sub-animation.
#[derive(Clone, Debug, PartialEq, Eq)]
pub enum LayerPixmap {
    Still(Vec<Vec<(u8, u8, u8, u8)>>),
    Video(Frames),
}

/// The pixels of a layer as a mathematical value.
pub enum PixmapView {
    Still(Seq<Seq<Pixel>>),
    Video(Seq<Seq<Seq<Pixel>>>),
}

impl View for LayerPixmap {
    type V = PixmapView;

    open spec fn view(&self) -> PixmapView {
        match self {
            LayerPixmap::Still(grid) => PixmapView::Still(grid_view(*grid)),
            LayerPixmap::Video(frames) => PixmapView::Video(frames_view(*frames)),
        }
    }
}

/// The pixmaps of a list as mathematical values.
pub open spec fn pixmap_views(layers: Seq<LayerPixmap>) -> Seq<PixmapView> {
    Seq::new(layers.len(), |i: int| layers[i]@)
}

/// Whether every character of the rows has a color.
pub open spec fn paintable(colors: Seq<(char, String)>, rows: Seq<Seq<char>>) -> bool {
    forall|i: int, j: int|
        0 <= i < rows.len() && 0 <= j < rows[i].len() ==> resolve(colors, #[trigger] rows[i][j])
            is Some
}

/// The pixels of a row: the color of each character.
pub open spec fn paint_row(colors: Seq<(char, String)>, row: Seq<char>) -> Seq<Pixel> {
    Seq::new(row.len(), |j: int| resolve(colors, row[j])->Some_0)
}

/// The grid of some rows.
pub open spec fn paint(colors: Seq<(char, String)>, rows: Seq<Seq<char>>) -> Seq<Seq<Pixel>> {
    Seq::new(rows.len(), |i: int| paint_row(colors, rows[i]))
}

/// The indices of some frames, in the order in which they are declared.
pub open spec fn frame_keys(frames: Seq<FrameView>) -> Seq<usize> {
    Seq::new(frames.len(), |i: int| frames[i].index)
}

/// The indices of some layers, in the order in which they are declared.
pub open spec fn layer_keys(layers: Seq<LayerView>) -> Seq<usize> {
    Seq::new(layers.len(), |i: int| layers[i].index)
}

/// Whether every character of the layer has a color.
pub open spec fn paintable_layer(colors: Seq<(char, String)>, layer: LayerView) -> bool {
    match layer.content {
        ContentView::Still(rows) => paintable(colors, rows),
        ContentView::Video(frames) => forall|k: int|
            0 <= k < frames.len() ==> paintable(colors, #[trigger] frames[k].content),
    }
}

/// The grids of a sub-animation: its frames in ascending order of index, frames of equal
/// index in the order in which they are declared.
pub open spec fn paint_frames(colors: Seq<(char, String)>, frames: Seq<FrameView>) -> Seq<
    Seq<Seq<Pixel>>,
> {
    Seq::new(
        frames.len(),
        |k: int| paint(colors, frames[stable_order(frame_keys(frames))[k] as int].content),
    )
}

/// The pixels of a layer, still or animated as the layer is.
pub open spec fn paint_layer(colors: Seq<(char, String)>, layer: LayerView) -> PixmapView {
    match layer.content {
        ContentView::Still(rows) => PixmapView::Still(paint(colors, rows)),
        ContentView::Video(frames) => PixmapView::Video(paint_frames(colors, frames)),
    }
}

/// The pixmaps of some layers: the layers in ascending order of index, layers of equal
/// index in the order in which they are declared.
pub open spec fn rasterized(colors: Seq<(char, String)>, layers: Seq<LayerView>) -> Seq<
    PixmapView,
> {
    Seq::new(
        layers.len(),
        |k: int| paint_layer(colors, layers[stable_order(layer_keys(layers))[k] as int]),
    )
}

/// Whether every character of every layer has a color.
pub open spec fn all_paintable(colors: Seq<(char, String)>, layers: Seq<LayerView>) -> bool {
    forall|k: int| 0 <= k < layers.len() ==> paintable_layer(colors, #[trigger] layers[k])
}

/// Paints one row.
fn paint_row_of(colors: &Vec<(char, String)>, row: &Vec<char>) -> (out: Result<
    Vec<Pixel>,
    CompileError,
>)
    ensures
        match out {
            Ok(pixels) => pixels@ == paint_row(colors@, row@) && (forall|j: int|
                0 <= j < row@.len() ==> resolve(colors@, #[trigger] row@[j]) is Some),
            Err(e) => e == CompileError::ColorFormat && (exists|j: int|
                0 <= j < row@.len() && resolve(colors@, #[trigger] row@[j]) is None),
        },
{
    let mut pixels: Vec<Pixel> = Vec::new();
    let mut j: usize = 0;
    while j < row.len()
        invariant
            j <= row@.len(),
            pixels@.len() == j,
            forall|k: int| 0 <= k < j ==> resolve(colors@, #[trigger] row@[k]) == Some(pixels@[k]),
        decreases row@.len() - j,
    {
        match color_of(colors, row[j]) {
            Ok(p) => {
                pixels.push(p);
            },
            Err(e) => {
                assert(resolve(colors@, row@[j as int]) is None);
                return Err(e);
            },
        }
        j += 1;
    }
    assert(pixels@ =~= paint_row(colors@, row@));
    Ok(pixels)
}

/// Paints the rows of one image.
fn paint_rows(colors: &Vec<(char, String)>, rows: &Vec<Vec<char>>) -> (out: Result<
    Vec<Vec<Pixel>>,
    CompileError,
>)
    ensures
        match out {
            Ok(grid) => grid_view(grid) == paint(colors@, rows_view(rows@)) && paintable(
                colors@,
                rows_view(rows@),
            ),
            Err(e) => e == CompileError::ColorFormat && !paintable(colors@, rows_view(rows@)),
        },
{
    let ghost view = rows_view(rows@);
    let mut grid: Vec<Vec<Pixel>> = Vec::new();
    let mut i: usize = 0;
    while i < rows.len()
        invariant
            i <= rows@.len(),
            view == rows_view(rows@),
            grid@.len() == i,
            forall|k: int| 0 <= k < i ==> #[trigger] grid@[k]@ == paint_row(colors@, view[k]),
            forall|k: int, j: int|
                0 <= k < i && 0 <= j < view[k].len() ==> resolve(colors@, #[trigger] view[k][j])
                    is Some,
        decreases rows@.len() - i,
    {
        match paint_row_of(colors, &rows[i]) {
            Ok(pixels) => {
                grid.push(pixels);
            },
            Err(e) => {
                proof {
                    let j = choose|j: int|
                        0 <= j < rows@[i as int]@.len() && resolve(
                            colors@,
                            #[trigger] rows@[i as int]@[j],
                        ) is None;
                    assert(resolve(colors@, view[i as int][j]) is None);
                }
                return Err(e);
            },
        }
        i += 1;
    }
    assert(grid_view(grid) =~= paint(colors@, view));
    Ok(grid)
}

/// The indices of some frames.
fn keys_of_frames(frames: &Vec<Frame>) -> (keys: Vec<usize>)
    ensures
        keys@ == frame_keys(crate::ast::frame_views(frames@)),
{
    let mut keys: Vec<usize> = Vec::new();
    let mut i: usize = 0;
    while i < frames.len()
        invariant
            i <= frames@.len(),
            keys@.len() == i,
            forall|k: int| 0 <= k < i ==> keys@[k] == frames@[k].index,
        decreases frames@.len() - i,
    {
        keys.push(frames[i].index);
        i += 1;
    }
    assert(keys@ =~= frame_keys(crate::ast::frame_views(frames@)));
    keys
}

/// The indices of some layers.
fn keys_of_layers(layers: &Vec<Layer>) -> (keys: Vec<usize>)
    ensures
        keys@ == layer_keys(layer_views(layers@)),
{
    let mut keys: Vec<usize> = Vec::new();
    let mut i: usize = 0;
    while i < layers.len()
        invariant
            i <= layers@.len(),
            keys@.len() == i,
            forall|k: int| 0 <= k < i ==> keys@[k] == layers@[k].index,
        decreases layers@.len() - i,
    {
        keys.push(layers[i].index);
        i += 1;
    }
    assert(keys@ =~= layer_keys(layer_views(layers@)));
    keys
}

/// Paints the frames of a sub-animation in the order of their indices.
fn paint_video(colors: &Vec<(char, String)>, frames: &Vec<Frame>) -> (out: Result<
    Frames,
    CompileError,
>)
    ensures
        match out {
            Ok(grids) => frames_view(grids) == paint_frames(
                colors@,
                crate::ast::frame_views(frames@),
            ) && (forall|k: int|
                0 <= k < frames@.len() ==> paintable(colors@, #[trigger] frames@[k]@.content)),
            Err(e) => e == CompileError::ColorFormat && (exists|k: int|
                0 <= k < frames@.len() && !paintable(colors@, #[trigger] frames@[k]@.content)),
        },
{
    let ghost view = crate::ast::frame_views(frames@);
    let keys = keys_of_frames(frames);
    let order = sorted_order(&keys);
    let mut grids: Frames = Vec::new();
    let mut k: usize = 0;
    while k < order.len()
        invariant
            k <= order@.len(),
            order@.len() == frames@.len(),
            order@ == stable_order(frame_keys(view)),
            view == crate::ast::frame_views(frames@),
            forall|i: int| 0 <= i < order@.len() ==> #[trigger] order@[i] < frames@.len(),
            grids@.len() == k,
            forall|i: int|
                0 <= i < k ==> grid_view(#[trigger] grids@[i]) == paint(
                    colors@,
                    view[order@[i] as int].content,
                ),
            forall|i: int|
                0 <= i < k ==> paintable(colors@, frames@[#[trigger] order@[i] as int]@.content),
        decreases order@.len() - k,
    {
        let frame = &frames[order[k]];
        match paint_rows(colors, &frame.content) {
            Ok(grid) => {
                grids.push(grid);
            },
            Err(e) => {
                assert(!paintable(colors@, frames@[order@[k as int] as int]@.content));
                return Err(e);
            },
        }
        k += 1;
    }
    assert(frames_view(grids) =~= paint_frames(colors@, view));
    assert forall|q: int| 0 <= q < frames@.len() implies paintable(
        colors@,
        #[trigger] frames@[q]@.content,
    ) by {
        assert(order@.contains(q as usize));
        let i = choose|i: int| 0 <= i < order@.len() && order@[i] == q as usize;
        assert(paintable(colors@, frames@[order@[i] as int]@.content));
    }
    Ok(grids)
}

/// Paints one layer.
fn paint_layer_of(colors: &Vec<(char, String)>, layer: &Layer) -> (out: Result<
    LayerPixmap,
    CompileError,
>)
    ensures
        match out {
            Ok(pixmap) => pixmap@ == paint_layer(colors@, layer@) && paintable_layer(
                colors@,
                layer@,
            ),
            Err(e) => e == CompileError::ColorFormat && !paintable_layer(colors@, layer@),
        },
{
    match &layer.content {
        LayerContent::Still(rows) => match paint_rows(colors, rows) {
            Ok(grid) => Ok(LayerPixmap::Still(grid)),
            Err(e) => Err(e),
        },
        LayerContent::Video(frames) => match paint_video(colors, frames) {
            Ok(grids) => {
                assert forall|k: int| 0 <= k < frames@.len() implies paintable(
                    colors@,
                    #[trigger] crate::ast::frame_views(frames@)[k].content,
                ) by {
                    assert(paintable(colors@, frames@[k]@.content));
                }
                Ok(LayerPixmap::Video(grids))
            },
            Err(e) => {
                proof {
                    let k = choose|k: int|
                        0 <= k < frames@.len() && !paintable(
                            colors@,
                            #[trigger] frames@[k]@.content,
                        );
                    assert(!paintable(colors@, crate::ast::frame_views(frames@)[k].content));
                }
                Err(e)
            },
        },
    }
}

/// Rasterizes the layers of a document in the order in which they are drawn: ascending by
/// index, and in the order of declaration where indices are equal. A character without a
/// palette entry is opaque black; one whose entry is not a hex color fails the whole
/// document.
pub fn generate_layers(conf: &Config, ast: Vec<Layer>) -> (out: Result<
    Vec<LayerPixmap>,
    CompileError,
>)
    ensures
        match out {
            Ok(layers) => all_paintable(conf.colors@, layer_views(ast@)) && pixmap_views(layers@)
                == rasterized(conf.colors@, layer_views(ast@)),
            Err(e) => e == CompileError::ColorFormat && !all_paintable(
                conf.colors@,
                layer_views(ast@),
            ),
        },
{
    let ghost view = layer_views(ast@);
    let keys = keys_of_layers(&ast);
    let order = sorted_order(&keys);
    let mut layers: Vec<LayerPixmap> = Vec::new();
    let mut k: usize = 0;
    while k < order.len()
        invariant
            k <= order@.len(),
            order@.len() == ast@.len(),
            order@ == stable_order(layer_keys(view)),
            view == layer_views(ast@),
            forall|i: int| 0 <= i < order@.len() ==> #[trigger] order@[i] < ast@.len(),
            layers@.len() == k,
            forall|i: int|
                0 <= i < k ==> (#[trigger] layers@[i])@ == paint_layer(
                    conf.colors@,
                    view[order@[i] as int],
                ),
            forall|i: int|
                0 <= i < k ==> paintable_layer(conf.colors@, view[#[trigger] order@[i] as int]),
        decreases order@.len() - k,
    {
        match paint_layer_of(&conf.colors, &ast[order[k]]) {
            Ok(pixmap) => {
                layers.push(pixmap);
            },
            Err(e) => {
                assert(!paintable_layer(conf.colors@, view[order@[k as int] as int]));
                return Err(e);
            },
        }
        k += 1;
    }
    assert(pixmap_views(layers@) =~= rasterized(conf.colors@, view));
    assert forall|q: int| 0 <= q < view.len() implies paintable_layer(
        conf.colors@,
        #[trigger] view[q],
    ) by {
        assert(order@.contains(q as usize));
        let i = choose|i: int| 0 <= i < order@.len() && order@[i] == q as usize;
        assert(paintable_layer(conf.colors@, view[order@[i] as int]));
    }
    Ok(layers)
}

} // verus!
