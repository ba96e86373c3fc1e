//! Tokens and the syntax tree of a document's artwork.

use vstd::prelude::*;

verus! {

/// One classified line of the artwork.
#[derive(Clone, Debug, PartialEq, Eq)]
pub enum Token {
    /// A layer marker with the layer's index.
    Layer(usize),
    /// A frame marker with the frame's index.
    Frame(usize),
    /// A row of pixels, one character each.
    Normal(Vec<char>),
}

/// A token as a mathematical value.
pub enum TokenView {
    Layer(usize),
    Frame(usize),
    Normal(Seq<char>),
}

impl View for Token {
    type V = TokenView;

    open spec fn view(&self) -> TokenView {
        match self {
            Token::Layer(n) => TokenView::Layer(*n),
            Token::Frame(n) => TokenView::Frame(*n),
            Token::Normal(row) => TokenView::Normal(row@),
        }
    }
}

/// The tokens of a list as mathematical values.
pub open spec fn tokens_view(tokens: Seq<Token>) -> Seq<TokenView> {
    Seq::new(tokens.len(), |i: int| tokens[i]@)
}

/// The rows of a list as sequences of characters.
pub open spec fn rows_view(rows: Seq<Vec<char>>) -> Seq<Seq<char>> {
    Seq::new(rows.len(), |i: int| rows[i]@)
}

/// One frame of a layer that is a sub-animation.
#[derive(Clone, Debug, PartialEq, Eq)]
pub struct Frame {
    /// Position of the frame within its sub-animation.
    pub index: usize,
    /// The rows of the frame, top to bottom.
    pub content: Vec<Vec<char>>,
}

/// A frame as a mathematical value.
pub struct FrameView {
    pub index: usize,
    pub content: Seq<Seq<char>>,
}

impl View for Frame {
    type V = FrameView;

    open spec fn view(&self) -> FrameView {
        FrameView { index: self.index, content: rows_view(self.content@) }
    }
}

/// The frames of a list as mathematical values.
pub open spec fn frame_views(frames: Seq<Frame>) -> Seq<FrameView> {
    Seq::new(frames.len(), |i: int| frames[i]@)
}

/// What a layer shows: one image, or a sub-animation that loops on its own.
#[derive(Clone, Debug, PartialEq, Eq)]
pub enum LayerContent {
    Still(Vec<Vec<char>>),
    Video(Vec<Frame>),
}

/// The content of a layer as a mathematical value.
pub enum ContentView {
    Still(Seq<Seq<char>>),
    Video(Seq<FrameView>),
}

impl View for LayerContent {
    type V = ContentView;

    open spec fn view(&self) -> ContentView {
        match self {
            LayerContent::Still(rows) => ContentView::Still(rows_view(rows@)),
            LayerContent::Video(frames) => ContentView::Video(frame_views(frames@)),
        }
    }
}

/// A layer of the artwork. Layers are drawn in ascending order of `index`.
#[derive(Clone, Debug, PartialEq, Eq)]
pub struct Layer {
    pub index: usize,
    pub content: LayerContent,
}

/// A layer as a mathematical value.
pub struct LayerView {
    pub index: usize,
    pub content: ContentView,
}

impl View for Layer {
    type V = LayerView;

    open spec fn view(&self) -> LayerView {
        LayerView { index: self.index, content: self.content@ }
    }
}

/// The layers of a list as mathematical values.
pub open spec fn layer_views(layers: Seq<Layer>) -> Seq<LayerView> {
    Seq::new(layers.len(), |i: int| layers[i]@)
}

} // verus!
