//! The invariants of a frame sequence that the encoder insists on.

use vstd::prelude::*;
use crate::config::{frames_view, Frames, Pixel};
use crate::error::Violation;

verus! {

/// Every frame has `h` rows (`want`), or none has (`!want`).
pub open spec fn heights_are(frames: Seq<Seq<Seq<Pixel>>>, h: nat, want: bool) -> bool {
    forall|i: int| 0 <= i < frames.len() ==> (#[trigger] frames[i].len() == h) == want
}

/// Every row of every frame has `w` pixels (`want`), or none has (`!want`).
pub open spec fn widths_are(frames: Seq<Seq<Seq<Pixel>>>, w: nat, want: bool) -> bool {
    forall|i: int, j: int|
        0 <= i < frames.len() && 0 <= j < frames[i].len() ==> (#[trigger] frames[i][j].len() == w)
            == want
}

/// The first invariant that the frames break, in the order in which they are tested: there
/// is a frame; there are `count` of them; no frame is without rows; no row is without
/// pixels; all frames are equally high; all rows are equally wide.
pub open spec fn shape_violation(frames: Seq<Seq<Seq<Pixel>>>, count: nat) -> Option<Violation> {
    if frames.len() == 0 {
        Some(Violation::Empty)
    } else if frames.len() != count {
        Some(Violation::FrameCount)
    } else if !heights_are(frames, 0, false) {
        Some(Violation::ZeroHeight)
    } else if !widths_are(frames, 0, false) {
        Some(Violation::ZeroWidth)
    } else if !heights_are(frames, frames[0].len(), true) {
        Some(Violation::UnalignedHeights)
    } else if !widths_are(frames, frames[0][0].len(), true) {
        Some(Violation::UnalignedWidths)
    } else {
        None
    }
}

/// Frames without a violation are `count` grids of one positive height and one positive
/// width.
pub proof fn lemma_valid_shape(frames: Seq<Seq<Seq<Pixel>>>, count: nat)
    requires
        shape_violation(frames, count) is None,
    ensures
        frames.len() == count,
        count > 0,
        frames[0].len() > 0,
        frames[0][0].len() > 0,
        forall|i: int| 0 <= i < frames.len() ==> #[trigger] frames[i].len() == frames[0].len(),
        forall|i: int, j: int|
            0 <= i < frames.len() && 0 <= j < frames[i].len() ==> #[trigger] frames[i][j].len()
                == frames[0][0].len(),
{
    assert(frames[0].len() != 0);
    assert(frames[0][0].len() != 0);
}

/// Frames in which two rows differ in width break an invariant.
pub proof fn lemma_ragged_frames_rejected(
    frames: Seq<Seq<Seq<Pixel>>>,
    count: nat,
    i: int,
    j: int,
    k: int,
    l: int,
)
    requires
        0 <= i < frames.len(),
        0 <= j < frames[i].len(),
        0 <= k < frames.len(),
        0 <= l < frames[k].len(),
        frames[i][j].len() != frames[k][l].len(),
    ensures
        shape_violation(frames, count) is Some,
{
    let w = frames[0][0].len();
    if frames[i][j].len() != w {
        assert(!widths_are(frames, w, true));
    } else {
        assert(frames[k][l].len() != w);
        assert(!widths_are(frames, w, true));
    }
}

/// Frames of which one has no rows, or a row without pixels, break an invariant.
pub proof fn lemma_empty_frames_rejected(frames: Seq<Seq<Seq<Pixel>>>, count: nat, i: int)
    requires
        0 <= i < frames.len(),
        frames[i].len() == 0 || exists|j: int| 0 <= j < frames[i].len() && frames[i][j].len() == 0,
    ensures
        shape_violation(frames, count) is Some,
        shape_violation(frames, count) != Some(Violation::UnalignedHeights),
        shape_violation(frames, count) != Some(Violation::UnalignedWidths),
{
    if frames[i].len() == 0 {
        assert(!heights_are(frames, 0, false));
    } else {
        let j = choose|j: int| 0 <= j < frames[i].len() && frames[i][j].len() == 0;
        assert(frames[i][j].len() == 0);
        assert(!widths_are(frames, 0, false));
    }
}

/// Tests the height of every frame against `h`.
fn check_heights(frames: &Frames, h: usize, want: bool) -> (ok: bool)
    ensures
        ok == heights_are(frames_view(*frames), h as nat, want),
{
    let ghost view = frames_view(*frames);
    let mut i: usize = 0;
    while i < frames.len()
        invariant
            i <= frames@.len(),
            view == frames_view(*frames),
            forall|k: int| 0 <= k < i ==> (#[trigger] view[k].len() == h as nat) == want,
        decreases frames@.len() - i,
    {
        if (frames[i].len() == h) != want {
            assert((view[i as int].len() == h as nat) != want);
            return false;
        }
        i += 1;
    }
    true
}

/// Tests the width of every row of every frame against `w`.
fn check_widths(frames: &Frames, w: usize, want: bool) -> (ok: bool)
    ensures
        ok == widths_are(frames_view(*frames), w as nat, want),
{
    let ghost view = frames_view(*frames);
    let mut i: usize = 0;
    while i < frames.len()
        invariant
            i <= frames@.len(),
            view == frames_view(*frames),
            forall|k: int, j: int|
                0 <= k < i && 0 <= j < view[k].len() ==> (#[trigger] view[k][j].len() == w as nat)
                    == want,
        decreases frames@.len() - i,
    {
        let grid = &frames[i];
        let mut j: usize = 0;
        while j < grid.len()
            invariant
                i < frames@.len(),
                j <= grid@.len(),
                grid == frames@[i as int],
                view == frames_view(*frames),
                forall|k: int, j: int|
                    0 <= k < i && 0 <= j < view[k].len() ==> (#[trigger] view[k][j].len()
                        == w as nat) == want,
                forall|m: int|
                    0 <= m < j ==> (#[trigger] view[i as int][m].len() == w as nat) == want,
            decreases grid@.len() - j,
        {
            if (grid[j].len() == w) != want {
                assert((view[i as int][j as int].len() == w as nat) != want);
                return false;
            }
            j += 1;
        }
        i += 1;
    }
    true
}

/// Finds the first invariant that the frames break, if there is one.
pub fn validate(frames: &Frames, count: usize) -> (found: Option<Violation>)
    ensures
        found == shape_violation(frames_view(*frames), count as nat),
{
    if frames.len() == 0 {
        return Some(Violation::Empty);
    }
    if frames.len() != count {
        return Some(Violation::FrameCount);
    }
    if !check_heights(frames, 0, false) {
        return Some(Violation::ZeroHeight);
    }
    if !check_widths(frames, 0, false) {
        return Some(Violation::ZeroWidth);
    }
    if !check_heights(frames, frames[0].len(), true) {
        return Some(Violation::UnalignedHeights);
    }
    assert(frames_view(*frames)[0].len() != 0);
    if !check_widths(frames, frames[0][0].len(), true) {
        return Some(Violation::UnalignedWidths);
    }
    None
}

} // verus!
