//! Post-processing of the composited frames.

use vstd::prelude::*;
use crate::config::{frames_view, grid_view, Frames, Options, Pixel};
use crate::error::CompileError;

verus! {

/// Whether every entry of `order` names one of `count` frames.
pub open spec fn order_valid(count: nat, order: Seq<usize>) -> bool {
    forall|i: int| 0 <= i < order.len() ==> #[trigger] order[i] < count
}

/// The frames that `order` names, in its order. A frame may come several times or not at
/// all.
pub open spec fn reordered(frames: Seq<Seq<Seq<Pixel>>>, order: Seq<usize>) -> Seq<
    Seq<Seq<Pixel>>,
> {
    Seq::new(order.len(), |i: int| frames[order[i] as int])
}

/// What the options make of the frames: the frames that `order` names, or all of them as
/// they are where there is no `order`. Nothing where `order` names a frame that is not there.
pub open spec fn applied(frames: Seq<Seq<Seq<Pixel>>>, option: Options) -> Option<
    Seq<Seq<Seq<Pixel>>>,
> {
    match option.order {
        Some(order) => if order_valid(frames.len(), order@) {
            Some(reordered(frames, order@))
        } else {
            None
        },
        None => Some(frames),
    }
}

/// A copy of a grid.
pub fn copy_grid(grid: &Vec<Vec<Pixel>>) -> (out: Vec<Vec<Pixel>>)
    ensures
        grid_view(out) == grid_view(*grid),
{
    let mut out: Vec<Vec<Pixel>> = Vec::new();
    let mut r: usize = 0;
    while r < grid.len()
        invariant
            r <= grid@.len(),
            out@.len() == r,
            forall|i: int| 0 <= i < r ==> (#[trigger] out@[i])@ == grid@[i]@,
        decreases grid@.len() - r,
    {
        let source = &grid[r];
        let mut row: Vec<Pixel> = Vec::new();
        let mut c: usize = 0;
        while c < source.len()
            invariant
                c <= source@.len(),
                row@ == source@.subrange(0, c as int),
            decreases source@.len() - c,
        {
            row.push(source[c]);
            c += 1;
            assert(row@ =~= source@.subrange(0, c as int));
        }
        assert(row@ =~= source@);
        out.push(row);
        r += 1;
    }
    assert(grid_view(out) =~= grid_view(*grid));
    out
}

/// Rebuilds the frame sequence from the given indices: the result has one frame for
/// each entry, a copy of the frame that the entry names. An entry beyond the last frame is
/// an error.
pub fn order(frames: Frames, indices: Vec<usize>) -> (out: Result<Frames, CompileError>)
    ensures
        match out {
            Ok(chosen) => order_valid(frames@.len(), indices@) && frames_view(chosen) == reordered(
                frames_view(frames),
                indices@,
            ),
            Err(e) => !order_valid(frames@.len(), indices@) && e == CompileError::Index,
        },
{
    let ghost view = frames_view(frames);
    let mut chosen: Frames = Vec::new();
    let mut i: usize = 0;
    while i < indices.len()
        invariant
            i <= indices@.len(),
            view == frames_view(frames),
            chosen@.len() == i,
            forall|k: int| 0 <= k < i ==> #[trigger] indices@[k] < frames@.len(),
            forall|k: int|
                0 <= k < i ==> grid_view(#[trigger] chosen@[k]) == view[indices@[k] as int],
        decreases indices@.len() - i,
    {
        let at = indices[i];
        if at >= frames.len() {
            return Err(CompileError::Index);
        }
        chosen.push(copy_grid(&frames[at]));
        i += 1;
    }
    assert(frames_view(chosen) =~= reordered(view, indices@));
    Ok(chosen)
}

/// Applies the options to the composited frames.
pub fn applyoption(frames: Frames, option: &Options) -> (out: Result<Frames, CompileError>)
    ensures
        match out {
            Ok(chosen) => applied(frames_view(frames), *option) == Some(frames_view(chosen)),
            Err(e) => applied(frames_view(frames), *option) is None && e == CompileError::Index,
        },
{
    match &option.order {
        Some(args) => order(frames, args.clone()),
        None => Ok(frames),
    }
}

} // verus!
