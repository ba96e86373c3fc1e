use pixdown::ast::{Frame, Layer, LayerContent};
use pixdown::color::{color_of, to_rgba, to_rgba_chars};
use pixdown::config::{Config, SizeConfig};
use pixdown::error::CompileError;
use pixdown::raster::{generate_layers, LayerPixmap};
use pixdown::sort::sorted_order;

fn row(s: &str) -> Vec<char> {
    s.chars().collect()
}

fn palette(entries: &[(char, &str)]) -> Vec<(char, String)> {
    entries.iter().map(|(c, hex)| (*c, hex.to_string())).collect()
}

fn config(entries: &[(char, &str)]) -> Config {
    Config {
        size: SizeConfig { w: 2, h: 2, scale: 1, frames: 1, rate: None },
        colors: palette(entries),
        options: None,
        meta: None,
    }
}

#[test]
fn six_digits_are_opaque() {
    assert_eq!(to_rgba("#000000"), Ok((0, 0, 0, 255)));
    assert_eq!(to_rgba("#ffffff"), Ok((255, 255, 255, 255)));
    assert_eq!(to_rgba("#1a2B3c"), Ok((0x1a, 0x2b, 0x3c, 255)));
}

#[test]
fn eight_digits_carry_alpha() {
    assert_eq!(to_rgba("#11223344"), Ok((0x11, 0x22, 0x33, 0x44)));
    assert_eq!(to_rgba("#FFFFFF00"), Ok((255, 255, 255, 0)));
    assert_eq!(to_rgba("#0a0B0c80"), Ok((10, 11, 12, 128)));
}

#[test]
fn other_strings_are_no_colors() {
    assert_eq!(to_rgba(""), Err(CompileError::ColorFormat));
    assert_eq!(to_rgba("#"), Err(CompileError::ColorFormat));
    assert_eq!(to_rgba("ff0000"), Err(CompileError::ColorFormat));
    assert_eq!(to_rgba("0ff0000"), Err(CompileError::ColorFormat));
    assert_eq!(to_rgba("#fff"), Err(CompileError::ColorFormat));
    assert_eq!(to_rgba("#ff000"), Err(CompileError::ColorFormat));
    assert_eq!(to_rgba("#ff00000"), Err(CompileError::ColorFormat));
    assert_eq!(to_rgba("#ff0000000"), Err(CompileError::ColorFormat));
    assert_eq!(to_rgba("#gg0000"), Err(CompileError::ColorFormat));
    assert_eq!(to_rgba("#ff00 0"), Err(CompileError::ColorFormat));
    assert_eq!(to_rgba("#ff0000\n"), Err(CompileError::ColorFormat));
    assert_eq!(to_rgba(" #ff0000"), Err(CompileError::ColorFormat));
    assert_eq!(to_rgba("#ff00００"), Err(CompileError::ColorFormat));
}

#[test]
fn to_rgba_chars_agrees_with_to_rgba() {
    assert_eq!(to_rgba_chars(&row("#010203")), to_rgba("#010203"));
    assert_eq!(to_rgba_chars(&row("#01020")), to_rgba("#01020"));
}

#[test]
fn unmapped_character_is_opaque_black() {
    let colors = palette(&[('A', "#ff0000")]);
    assert_eq!(color_of(&colors, 'B'), Ok((0, 0, 0, 255)));
    assert_eq!(color_of(&vec![], 'A'), Ok((0, 0, 0, 255)));
}

#[test]
fn mapped_character_has_its_color() {
    let colors = palette(&[('A', "#ff0000"), ('B', "#00ff0080")]);
    assert_eq!(color_of(&colors, 'A'), Ok((255, 0, 0, 255)));
    assert_eq!(color_of(&colors, 'B'), Ok((0, 255, 0, 128)));
}

#[test]
fn first_palette_entry_counts() {
    let colors = palette(&[('A', "#010101"), ('A', "#020202")]);
    assert_eq!(color_of(&colors, 'A'), Ok((1, 1, 1, 255)));
}

#[test]
fn malformed_entry_fails_when_used() {
    let colors = palette(&[('A', "red"), ('B', "#0000ff")]);
    assert_eq!(color_of(&colors, 'A'), Err(CompileError::ColorFormat));
    assert_eq!(color_of(&colors, 'B'), Ok((0, 0, 255, 255)));
}

#[test]
fn stable_order_sorts_by_key() {
    assert_eq!(sorted_order(&vec![]), Vec::<usize>::new());
    assert_eq!(sorted_order(&vec![7]), vec![0]);
    assert_eq!(sorted_order(&vec![3, 1, 2]), vec![1, 2, 0]);
    assert_eq!(sorted_order(&vec![0, 1, 2, 3]), vec![0, 1, 2, 3]);
    assert_eq!(sorted_order(&vec![9, 8, 7, 6]), vec![3, 2, 1, 0]);
}

#[test]
fn stable_order_keeps_equal_keys_in_place() {
    assert_eq!(sorted_order(&vec![1, 0, 1, 0, 1]), vec![1, 3, 0, 2, 4]);
    assert_eq!(sorted_order(&vec![5, 5, 5]), vec![0, 1, 2]);
}

#[test]
fn layers_are_rasterized_in_ascending_index_order() {
    let conf = config(&[('A', "#ff0000"), ('B', "#0000ff")]);
    let ast = vec![
        Layer { index: 2, content: LayerContent::Still(vec![row("A")]) },
        Layer { index: 0, content: LayerContent::Still(vec![row("B")]) },
        Layer { index: 1, content: LayerContent::Still(vec![row("AB")]) },
    ];
    assert_eq!(
        generate_layers(&conf, ast),
        Ok(vec![
            LayerPixmap::Still(vec![vec![(0, 0, 255, 255)]]),
            LayerPixmap::Still(vec![vec![(255, 0, 0, 255), (0, 0, 255, 255)]]),
            LayerPixmap::Still(vec![vec![(255, 0, 0, 255)]]),
        ])
    );
}

#[test]
fn layers_of_equal_index_keep_their_declaration_order() {
    let conf = config(&[('A', "#ff0000"), ('B', "#0000ff")]);
    let ast = vec![
        Layer { index: 1, content: LayerContent::Still(vec![row("A")]) },
        Layer { index: 1, content: LayerContent::Still(vec![row("B")]) },
        Layer { index: 0, content: LayerContent::Still(vec![]) },
    ];
    assert_eq!(
        generate_layers(&conf, ast),
        Ok(vec![
            LayerPixmap::Still(vec![]),
            LayerPixmap::Still(vec![vec![(255, 0, 0, 255)]]),
            LayerPixmap::Still(vec![vec![(0, 0, 255, 255)]]),
        ])
    );
}

#[test]
fn frames_of_a_video_are_sorted_by_index() {
    let conf = config(&[('A', "#ff0000"), ('B', "#0000ff")]);
    let ast = vec![Layer {
        index: 0,
        content: LayerContent::Video(vec![
            Frame { index: 1, content: vec![row("A")] },
            Frame { index: 0, content: vec![row("B")] },
        ]),
    }];
    assert_eq!(
        generate_layers(&conf, ast),
        Ok(vec![LayerPixmap::Video(vec![
            vec![vec![(0, 0, 255, 255)]],
            vec![vec![(255, 0, 0, 255)]],
        ])])
    );
}

#[test]
fn rows_keep_their_own_widths() {
    let conf = config(&[('A', "#01020304")]);
    let ast = vec![Layer {
        index: 0,
        content: LayerContent::Still(vec![row("A"), row(""), row("A?A")]),
    }];
    assert_eq!(
        generate_layers(&conf, ast),
        Ok(vec![LayerPixmap::Still(vec![
            vec![(1, 2, 3, 4)],
            vec![],
            vec![(1, 2, 3, 4), (0, 0, 0, 255), (1, 2, 3, 4)],
        ])])
    );
}

#[test]
fn malformed_color_in_use_fails_the_document() {
    let conf = config(&[('A', "#ff0000"), ('B', "blue")]);
    let still = vec![Layer { index: 0, content: LayerContent::Still(vec![row("AB")]) }];
    assert_eq!(generate_layers(&conf, still), Err(CompileError::ColorFormat));
    let video = vec![Layer {
        index: 0,
        content: LayerContent::Video(vec![Frame { index: 0, content: vec![row("A"), row("B")] }]),
    }];
    assert_eq!(generate_layers(&conf, video), Err(CompileError::ColorFormat));
}

#[test]
fn malformed_color_not_in_use_is_no_error() {
    let conf = config(&[('A', "#ff0000"), ('B', "blue")]);
    let ast = vec![Layer { index: 0, content: LayerContent::Still(vec![row("AA")]) }];
    assert_eq!(
        generate_layers(&conf, ast),
        Ok(vec![LayerPixmap::Still(vec![vec![(255, 0, 0, 255), (255, 0, 0, 255)]])])
    );
}
