//! The raw image data of a frame: filtered scanlines of upscaled pixels.

use vstd::prelude::*;
use crate::config::{grid_view, Pixel};

verus! {

/// The four bytes of a pixel: red, green, blue, alpha.
pub open spec fn pixel_bytes(p: Pixel) -> Seq<u8> {
    seq![p.0, p.1, p.2, p.3]
}

/// `s` written `n` times in a row.
pub open spec fn repeat(s: Seq<u8>, n: nat) -> Seq<u8>
    decreases n,
{
    if n == 0 {
        Seq::empty()
    } else {
        repeat(s, (n - 1) as nat) + s
    }
}

/// The pixels of a row, each written `scale` times.
pub open spec fn row_pixels(row: Seq<Pixel>, scale: nat) -> Seq<u8>
    decreases row.len(),
{
    if row.len() == 0 {
        Seq::empty()
    } else {
        row_pixels(row.drop_last(), scale) + repeat(pixel_bytes(row.last()), scale)
    }
}

/// One scanline: the filter type 0 (none), then the upscaled pixels of the row.
pub open spec fn scanline(row: Seq<Pixel>, scale: nat) -> Seq<u8> {
    seq![0u8] + row_pixels(row, scale)
}

/// The raw image data of a grid: each row's scanline written `scale` times.
pub open spec fn raw_image(grid: Seq<Seq<Pixel>>, scale: nat) -> Seq<u8>
    decreases grid.len(),
{
    if grid.len() == 0 {
        Seq::empty()
    } else {
        raw_image(grid.drop_last(), scale) + repeat(scanline(grid.last(), scale), scale)
    }
}

/// Appends a pixel `scale` times.
fn push_pixel(out: &mut Vec<u8>, p: Pixel, scale: usize)
    ensures
        final(out)@ == old(out)@ + repeat(pixel_bytes(p), scale as nat),
{
    let mut k: usize = 0;
    assert(out@ =~= old(out)@ + repeat(pixel_bytes(p), 0));
    while k < scale
        invariant
            k <= scale,
            out@ == old(out)@ + repeat(pixel_bytes(p), k as nat),
        decreases scale - k,
    {
        out.push(p.0);
        out.push(p.1);
        out.push(p.2);
        out.push(p.3);
        k += 1;
        assert(out@ =~= old(out)@ + repeat(pixel_bytes(p), k as nat));
    }
}

/// Appends one scanline of a row.
fn push_scanline(out: &mut Vec<u8>, row: &Vec<Pixel>, scale: usize)
    ensures
        final(out)@ == old(out)@ + scanline(row@, scale as nat),
{
    out.push(0u8);
    let mut x: usize = 0;
    assert(row@.subrange(0, 0) =~= Seq::<Pixel>::empty());
    assert(out@ =~= old(out)@ + scanline(row@.subrange(0, 0), scale as nat));
    while x < row.len()
        invariant
            x <= row@.len(),
            out@ == old(out)@ + scanline(row@.subrange(0, x as int), scale as nat),
        decreases row@.len() - x,
    {
        push_pixel(out, row[x], scale);
        proof {
            let done = row@.subrange(0, x as int);
            let more = row@.subrange(0, x + 1);
            assert(more.drop_last() =~= done);
            assert(more.last() == row@[x as int]);
            assert(out@ =~= old(out)@ + scanline(more, scale as nat));
        }
        x += 1;
    }
    assert(row@.subrange(0, x as int) =~= row@);
}

/// Builds the raw image data of a grid at the given scale.
pub fn build_raw_image(grid: &Vec<Vec<Pixel>>, scale: usize) -> (out: Vec<u8>)
    ensures
        out@ == raw_image(grid_view(*grid), scale as nat),
{
    let mut out: Vec<u8> = Vec::new();
    let ghost rows = grid_view(*grid);
    let mut y: usize = 0;
    assert(rows.subrange(0, 0) =~= Seq::<Seq<Pixel>>::empty());
    while y < grid.len()
        invariant
            y <= grid@.len(),
            rows == grid_view(*grid),
            out@ == raw_image(rows.subrange(0, y as int), scale as nat),
        decreases grid@.len() - y,
    {
        let ghost before = out@;
        let mut k: usize = 0;
        assert(out@ =~= before + repeat(scanline(rows[y as int], scale as nat), 0));
        while k < scale
            invariant
                k <= scale,
                y < grid@.len(),
                rows == grid_view(*grid),
                out@ == before + repeat(scanline(rows[y as int], scale as nat), k as nat),
            decreases scale - k,
        {
            push_scanline(&mut out, &grid[y], scale);
            k += 1;
            assert(out@ =~= before + repeat(scanline(rows[y as int], scale as nat), k as nat));
        }
        proof {
            let more = rows.subrange(0, y + 1);
            assert(more.drop_last() =~= rows.subrange(0, y as int));
            assert(more.last() == rows[y as int]);
        }
        y += 1;
    }
    assert(rows.subrange(0, y as int) =~= rows);
    out
}

} // verus!
