//! The parser: a sequence of tokens to the layers of the artwork.

use vstd::prelude::*;
use crate::ast::{
    frame_views, layer_views, rows_view, ContentView, Frame, FrameView, Layer, LayerContent,
    LayerView, Token, TokenView,
};
use crate::ast::tokens_view;

verus! {

/// The number of rows that follow each other from position `at` on.
pub open spec fn row_count(tokens: Seq<TokenView>, at: int) -> nat
    decreases tokens.len() - at,
{
    if 0 <= at < tokens.len() && tokens[at] is Normal {
        1 + row_count(tokens, at + 1)
    } else {
        0
    }
}

/// Rows end within the sequence.
pub proof fn lemma_rows_end_inside(tokens: Seq<TokenView>, at: int)
    requires
        0 <= at <= tokens.len(),
    ensures
        at + row_count(tokens, at) <= tokens.len(),
    decreases tokens.len() - at,
{
    if at < tokens.len() {
        lemma_rows_end_inside(tokens, at + 1);
    }
}

/// The rows that follow each other from position `at` on.
pub open spec fn rows_at(tokens: Seq<TokenView>, at: int) -> Seq<Seq<char>> {
    Seq::new(row_count(tokens, at), |k: int| tokens[at + k]->Normal_0)
}

/// The number of tokens that the frames starting at position `at` take: each a frame marker
/// and the rows behind it. It is 0 where no frame marker stands at `at`.
pub open spec fn frames_span(tokens: Seq<TokenView>, at: int) -> nat
    decreases tokens.len() - at,
{
    if 0 <= at < tokens.len() && tokens[at] is Frame {
        proof {
            lemma_rows_end_inside(tokens, at + 1);
        }
        1 + row_count(tokens, at + 1) + frames_span(tokens, at + 1 + row_count(tokens, at + 1))
    } else {
        0
    }
}

/// Frames end within the sequence.
pub proof fn lemma_frames_end_inside(tokens: Seq<TokenView>, at: int)
    requires
        0 <= at <= tokens.len(),
    ensures
        at + frames_span(tokens, at) <= tokens.len(),
    decreases tokens.len() - at,
{
    if at < tokens.len() && tokens[at] is Frame {
        lemma_rows_end_inside(tokens, at + 1);
        lemma_frames_end_inside(tokens, at + 1 + row_count(tokens, at + 1));
    }
}

/// The frames starting at position `at`: for each frame marker its index and the rows
/// behind it, up to the first token that is neither.
pub open spec fn frames_at(tokens: Seq<TokenView>, at: int) -> Seq<FrameView>
    decreases tokens.len() - at,
{
    if 0 <= at < tokens.len() && tokens[at] is Frame {
        proof {
            lemma_rows_end_inside(tokens, at + 1);
        }
        seq![FrameView { index: tokens[at]->Frame_0, content: rows_at(tokens, at + 1) }]
            + frames_at(tokens, at + 1 + row_count(tokens, at + 1))
    } else {
        Seq::empty()
    }
}

/// The layers from position `at` on. A layer marker opens a layer. Where a frame marker
/// comes right behind it, the layer is a sub-animation of the frames that follow; else it
/// is a still image of the rows that follow. Tokens outside a layer are passed over.
pub open spec fn layers_at(tokens: Seq<TokenView>, at: int) -> Seq<LayerView>
    decreases tokens.len() - at,
{
    if at < 0 || at >= tokens.len() {
        Seq::empty()
    } else if tokens[at] is Layer {
        proof {
            lemma_rows_end_inside(tokens, at + 1);
            lemma_frames_end_inside(tokens, at + 1);
        }
        let index = tokens[at]->Layer_0;
        if at + 1 < tokens.len() && tokens[at + 1] is Frame {
            seq![LayerView { index, content: ContentView::Video(frames_at(tokens, at + 1)) }]
                + layers_at(tokens, at + 1 + frames_span(tokens, at + 1))
        } else {
            seq![LayerView { index, content: ContentView::Still(rows_at(tokens, at + 1)) }]
                + layers_at(tokens, at + 1 + row_count(tokens, at + 1))
        }
    } else {
        layers_at(tokens, at + 1)
    }
}

/// The layers of a whole token sequence.
pub open spec fn parsed(tokens: Seq<TokenView>) -> Seq<LayerView> {
    layers_at(tokens, 0)
}

/// Whether a token is a row.
fn is_row(token: &Token) -> (yes: bool)
    ensures
        yes == (token@ is Normal),
{
    match token {
        Token::Normal(_) => true,
        _ => false,
    }
}

/// Whether a token is a frame marker.
fn is_frame(token: &Token) -> (yes: bool)
    ensures
        yes == (token@ is Frame),
{
    match token {
        Token::Frame(_) => true,
        _ => false,
    }
}

/// Collects the rows that follow each other from `at` on, and says where they end.
fn parse_rows(tokens: &Vec<Token>, at: usize) -> (out: (Vec<Vec<char>>, usize))
    requires
        at <= tokens@.len(),
    ensures
        rows_view(out.0@) == rows_at(tokens_view(tokens@), at as int),
        out.1 == at + row_count(tokens_view(tokens@), at as int),
        out.1 <= tokens@.len(),
{
    let ghost view = tokens_view(tokens@);
    let mut rows: Vec<Vec<char>> = Vec::new();
    let mut i: usize = at;
    while i < tokens.len() && is_row(&tokens[i])
        invariant
            at <= i <= tokens@.len(),
            view == tokens_view(tokens@),
            row_count(view, at as int) == (i - at) + row_count(view, i as int),
            rows@.len() == i - at,
            forall|k: int| 0 <= k < i - at ==> #[trigger] rows@[k]@ == view[at + k]->Normal_0,
        decreases tokens@.len() - i,
    {
        if let Token::Normal(row) = &tokens[i] {
            rows.push(row.clone());
        }
        i += 1;
    }
    assert(rows_view(rows@) =~= rows_at(view, at as int));
    (rows, i)
}

/// Collects the frames that start at `at`, and says where they end.
fn parse_frames(tokens: &Vec<Token>, at: usize) -> (out: (Vec<Frame>, usize))
    requires
        at <= tokens@.len(),
    ensures
        frame_views(out.0@) == frames_at(tokens_view(tokens@), at as int),
        out.1 == at + frames_span(tokens_view(tokens@), at as int),
        out.1 <= tokens@.len(),
{
    let ghost view = tokens_view(tokens@);
    let mut frames: Vec<Frame> = Vec::new();
    let mut i: usize = at;
    assert(frame_views(frames@) + frames_at(view, i as int) =~= frames_at(view, at as int));
    while i < tokens.len() && is_frame(&tokens[i])
        invariant
            at <= i <= tokens@.len(),
            view == tokens_view(tokens@),
            frames_span(view, at as int) == (i - at) + frames_span(view, i as int),
            frame_views(frames@) + frames_at(view, i as int) == frames_at(view, at as int),
        decreases tokens@.len() - i,
    {
        if let Token::Frame(index) = &tokens[i] {
            let ghost before = frame_views(frames@);
            let (content, next) = parse_rows(tokens, i + 1);
            let frame = Frame { index: *index, content };
            let ghost added = frame@;
            frames.push(frame);
            proof {
                assert(frame_views(frames@) =~= before + seq![added]);
                assert(frame_views(frames@) + frames_at(view, next as int) =~= before + (seq![
                    added,
                ] + frames_at(view, next as int)));
            }
            i = next;
        }
    }
    assert(frames_at(view, i as int) =~= Seq::<FrameView>::empty());
    assert(frame_views(frames@) =~= frames_at(view, at as int));
    (frames, i)
}

/// Parses the layers of a token sequence, in the order in which they are declared.
pub fn parse(tokens: &Vec<Token>) -> (layers: Vec<Layer>)
    ensures
        layer_views(layers@) == parsed(tokens_view(tokens@)),
{
    let ghost view = tokens_view(tokens@);
    let mut layers: Vec<Layer> = Vec::new();
    let mut i: usize = 0;
    assert(layer_views(layers@) + layers_at(view, 0) =~= layers_at(view, 0));
    while i < tokens.len()
        invariant
            i <= tokens@.len(),
            view == tokens_view(tokens@),
            layer_views(layers@) + layers_at(view, i as int) == layers_at(view, 0),
        decreases tokens@.len() - i,
    {
        match &tokens[i] {
            Token::Layer(index) => {
                let ghost before = layer_views(layers@);
                let animated = i + 1 < tokens.len() && is_frame(&tokens[i + 1]);
                let (content, next) = if animated {
                    let (frames, next) = parse_frames(tokens, i + 1);
                    (LayerContent::Video(frames), next)
                } else {
                    let (rows, next) = parse_rows(tokens, i + 1);
                    (LayerContent::Still(rows), next)
                };
                let layer = Layer { index: *index, content };
                let ghost added = layer@;
                layers.push(layer);
                proof {
                    assert(layer_views(layers@) =~= before + seq![added]);
                    assert(layer_views(layers@) + layers_at(view, next as int) =~= before + (seq![
                        added,
                    ] + layers_at(view, next as int)));
                }
                i = next;
            },
            _ => {
                i += 1;
            },
        }
    }
    assert(layers_at(view, i as int) =~= Seq::<LayerView>::empty());
    assert(layer_views(layers@) =~= layers_at(view, 0));
    layers
}

} // verus!
