//! Compiles a text description of a pixel sprite sheet into PNG or animated PNG bytes.
//!
//! A document declares a canvas, a palette and a number of frames, and draws its artwork
//! as rows of characters under layer and frame markers. The stages are the tokenizer
//! ([`token`]), the parser ([`parse`]), the rasterizer ([`raster`]), the compositor
//! ([`composite`]), the frame options ([`options`]) and the binary encoder ([`encode`]).

pub mod ast;
pub mod bignat;
pub mod blend;
pub mod chunk;
pub mod color;
pub mod composite;
pub mod config;
pub mod encode;
pub mod error;
pub mod options;
pub mod parse;
pub mod raster;
pub mod scanline;
pub mod sort;
pub mod text;
pub mod token;
pub mod validate;

use vstd::prelude::*;
use crate::ast::{tokens_view, Token, TokenView};
use crate::config::{Config, Pixel};
use crate::error::CompileError;

verus! {

/// The token of a blank line, which the parser never sees.
pub open spec fn blank_token() -> TokenView {
    TokenView::Normal(Seq::empty())
}

/// Whether every line can be classified.
pub open spec fn all_classified(lines: Seq<Seq<char>>) -> bool {
    forall|i: int| 0 <= i < lines.len() ==> token::classify(#[trigger] lines[i]) is Ok
}

/// The tokens of the first `n` lines, blank lines left out.
pub open spec fn tokens_of_first(lines: Seq<Seq<char>>, n: nat) -> Seq<TokenView>
    decreases n,
{
    if n == 0 {
        Seq::empty()
    } else {
        let before = tokens_of_first(lines, (n - 1) as nat);
        let token = token::classify(lines[n - 1])->Ok_0;
        if token == blank_token() {
            before
        } else {
            before.push(token)
        }
    }
}

/// The frames that go to the encoder: the composited frames, reordered where the
/// configuration asks for it. Nothing where the order names a frame that is not there.
pub open spec fn chosen_frames(conf: Config, frames: Seq<Seq<Seq<Pixel>>>) -> Option<
    Seq<Seq<Seq<Pixel>>>,
> {
    match conf.options {
        Some(option) => options::applied(frames, option),
        None => Some(frames),
    }
}

/// The composited frames of some rasterized layers under a configuration.
pub open spec fn frames_of(conf: Config, layers: Seq<raster::PixmapView>) -> Seq<
    Seq<Seq<Pixel>>,
> {
    composite::composited(
        layers,
        conf.size.w as nat,
        conf.size.h as nat,
        conf.size.frames as nat,
    )
}

/// What a document compiles to: the bytes of the image, or the first error that a stage
/// meets. The stages run in this order: lines to tokens, tokens to layers, layers to
/// pixels, pixels to frames, the frame options, the encoder.
pub open spec fn compiled(conf: Config, body: Seq<char>) -> Result<Seq<u8>, CompileError> {
    let lines = text::lines(body);
    let layers = parse::parsed(tokens_of_first(lines, lines.len()));
    let frames = frames_of(conf, raster::rasterized(conf.colors@, layers));
    if !all_classified(lines) {
        Err(CompileError::Syntax)
    } else if !raster::all_paintable(conf.colors@, layers) {
        Err(CompileError::ColorFormat)
    } else {
        match chosen_frames(conf, frames) {
            None => Err(CompileError::Index),
            Some(chosen) => match encode::violation(chosen, conf) {
                Some(v) => Err(CompileError::Validation(v)),
                None => Ok(encode::png_bytes(chosen, conf)),
            },
        }
    }
}

/// A canvas without width or without height gives frames that the encoder refuses, with
/// or without an `order` option: the document compiles to an error, never to bytes.
pub proof fn lemma_zero_canvas_rejected(conf: Config, body: Seq<char>)
    requires
        conf.size.w == 0 || conf.size.h == 0,
    ensures
        compiled(conf, body) is Err,
        forall|layers: Seq<raster::PixmapView>|
            chosen_frames(conf, #[trigger] frames_of(conf, layers)) is Some
                ==> validate::shape_violation(
                chosen_frames(conf, frames_of(conf, layers))->Some_0,
                conf.size.frames as nat,
            ) is Some,
{
    let w = conf.size.w as nat;
    let h = conf.size.h as nat;
    let n = conf.size.frames as nat;
    assert forall|layers: Seq<raster::PixmapView>|
        chosen_frames(conf, #[trigger] frames_of(conf, layers)) is Some
        implies validate::shape_violation(
        chosen_frames(conf, frames_of(conf, layers))->Some_0,
        n,
    ) is Some by {
        let frames = composite::composited(layers, w, h, n);
        composite::lemma_composited_shape(layers, w, h, n);
        let chosen = chosen_frames(conf, frames)->Some_0;
        if chosen.len() > 0 {
            let grid = chosen[0];
            assert(exists|f: int| 0 <= f < n && grid == frames[f]) by {
                match conf.options {
                    Some(option) => match option.order {
                        Some(order) => {
                            assert(order@[0] < frames.len());
                            assert(grid == frames[order@[0] as int]);
                        },
                        None => {
                            assert(grid == frames[0]);
                        },
                    },
                    None => {
                        assert(grid == frames[0]);
                    },
                }
            }
            let f = choose|f: int| 0 <= f < n && grid == frames[f];
            assert(frames[f].len() == h);
            if h > 0 {
                assert(frames[f][0].len() == w);
                assert(chosen[0][0].len() == 0);
            }
            validate::lemma_empty_frames_rejected(chosen, n, 0);
        }
    }
    let lines = text::lines(body);
    let layers = raster::rasterized(
        conf.colors@,
        parse::parsed(tokens_of_first(lines, lines.len())),
    );
    let frames = composite::composited(layers, w, h, n);
    if chosen_frames(conf, frames) is Some {
        assert(validate::shape_violation(chosen_frames(conf, frames)->Some_0, n) is Some);
    }
}

/// Classifies every line and drops the blank ones.
pub fn tokenize_lines(lines: &Vec<Vec<char>>) -> (out: Result<Vec<Token>, CompileError>)
    ensures
        match out {
            Ok(tokens) => all_classified(ast::rows_view(lines@)) && tokens_view(tokens@)
                == tokens_of_first(ast::rows_view(lines@), lines@.len()),
            Err(e) => !all_classified(ast::rows_view(lines@)) && e == CompileError::Syntax,
        },
{
    let ghost view = ast::rows_view(lines@);
    let mut tokens: Vec<Token> = Vec::new();
    let mut i: usize = 0;
    assert(tokens_view(tokens@) =~= tokens_of_first(view, 0));
    while i < lines.len()
        invariant
            i <= lines@.len(),
            view == ast::rows_view(lines@),
            forall|k: int| 0 <= k < i ==> token::classify(#[trigger] view[k]) is Ok,
            tokens_view(tokens@) == tokens_of_first(view, i as nat),
        decreases lines@.len() - i,
    {
        assert(view[i as int] == lines@[i as int]@);
        match token::tokenize_chars(&lines[i]) {
            Ok(token) => {
                let blank = match &token {
                    Token::Normal(row) => row.len() == 0,
                    _ => false,
                };
                proof {
                    if blank {
                        assert(token@->Normal_0 =~= Seq::<char>::empty());
                    }
                }
                if !blank {
                    let ghost before = tokens_view(tokens@);
                    let ghost added = token@;
                    tokens.push(token);
                    assert(tokens_view(tokens@) =~= before.push(added));
                }
            },
            Err(e) => {
                assert(!(token::classify(view[i as int]) is Ok));
                return Err(e);
            },
        }
        i += 1;
    }
    Ok(tokens)
}

/// Compiles the artwork `body` of a document under its configuration `conf` into the bytes
/// of a PNG, or of an animated PNG where there is more than one frame. Any error ends the
/// compilation, and then there are no bytes.
pub fn compile(conf: &Config, body: &str) -> (out: Result<Vec<u8>, CompileError>)
    ensures
        match out {
            Ok(bytes) => compiled(*conf, body@) == Ok::<Seq<u8>, CompileError>(bytes@),
            Err(e) => compiled(*conf, body@) == Err::<Seq<u8>, CompileError>(e),
        },
{
    let chars = text::chars_of(body);
    let lines = text::split_lines(&chars);
    let tokens = match tokenize_lines(&lines) {
        Ok(tokens) => tokens,
        Err(e) => {
            return Err(e);
        },
    };
    let ast = parse::parse(&tokens);
    let layers = match raster::generate_layers(conf, ast) {
        Ok(layers) => layers,
        Err(e) => {
            return Err(e);
        },
    };
    let frames = composite::generate_frames(conf, layers);
    let applied = match &conf.options {
        Some(option) => match options::applyoption(frames, option) {
            Ok(chosen) => chosen,
            Err(e) => {
                return Err(e);
            },
        },
        None => frames,
    };
    encode::generate_image(&applied, conf)
}

} // verus!
