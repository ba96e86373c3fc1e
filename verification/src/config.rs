//! The configuration record that every stage reads.

use vstd::prelude::*;

verus! {

/// One pixel: red, green, blue and alpha, where alpha 0 is transparent and 255 opaque.
pub type Pixel = (u8, u8, u8, u8);

/// A grid of pixels, row by row.
pub type Grid = Vec<Vec<Pixel>>;

/// A sequence of grids, one per frame.
pub type Frames = Vec<Vec<Vec<(u8, u8, u8, u8)>>>;

/// The canvas and the timing of the animation.
pub struct SizeConfig {
    /// Width of the canvas in pixels.
    pub w: usize,
    /// Height of the canvas in pixels.
    pub h: usize,
    /// Each pixel becomes a square of `scale` by `scale` in the output.
    pub scale: usize,
    /// Number of output frames.
    pub frames: usize,
    /// Delay of a frame as numerator and denominator, in seconds.
    pub rate: Option<[u16; 2]>,
}

/// Post-processing of the composited frames.
pub struct Options {
    /// The frames to emit, by their index in the composited sequence.
    pub order: Option<Vec<usize>>,
}

/// What a document declares before its artwork.
pub struct Config {
    pub size: SizeConfig,
    /// The palette: a character and the hex color it stands for. The first entry for a
    /// character counts.
    pub colors: Vec<(char, String)>,
    pub options: Option<Options>,
    /// Text metadata as keys and values, embedded in the order given.
    pub meta: Option<Vec<(String, String)>>,
}

/// The rows of a grid as sequences.
pub open spec fn grid_view(g: Vec<Vec<Pixel>>) -> Seq<Seq<Pixel>> {
    Seq::new(g@.len(), |i: int| g@[i]@)
}

/// The grids of a frame sequence as sequences of rows.
pub open spec fn frames_view(f: Frames) -> Seq<Seq<Seq<Pixel>>> {
    Seq::new(f@.len(), |i: int| grid_view(f@[i]))
}

} // verus!
