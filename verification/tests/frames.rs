use pixdown::composite::generate_frames;
use pixdown::config::{Config, Frames, Options, SizeConfig};
use pixdown::error::CompileError;
use pixdown::options::{applyoption, copy_grid, order};
use pixdown::raster::LayerPixmap;

type Pixel = (u8, u8, u8, u8);

const RED: Pixel = (255, 0, 0, 255);
const GREEN: Pixel = (0, 255, 0, 255);
const BLUE: Pixel = (0, 0, 255, 255);
const CLEAR: Pixel = (0, 0, 0, 0);

fn config(w: usize, h: usize, frames: usize) -> Config {
    Config {
        size: SizeConfig { w, h, scale: 1, frames, rate: None },
        colors: vec![],
        options: None,
        meta: None,
    }
}

fn solid(w: usize, h: usize, p: Pixel) -> Vec<Vec<Pixel>> {
    vec![vec![p; w]; h]
}

#[test]
fn as_many_frames_as_configured_each_of_canvas_size() {
    let layers = vec![LayerPixmap::Still(vec![vec![RED; 7]; 5])];
    let frames = generate_frames(&config(3, 2, 4), layers);
    assert_eq!(frames.len(), 4);
    for grid in &frames {
        assert_eq!(grid.len(), 2);
        for row in grid {
            assert_eq!(row.len(), 3);
        }
    }
}

#[test]
fn no_layers_give_transparent_frames() {
    assert_eq!(generate_frames(&config(2, 1, 2), vec![]), vec![solid(2, 1, CLEAR); 2]);
}

#[test]
fn no_frames_configured_give_no_frames() {
    let layers = vec![LayerPixmap::Still(solid(2, 2, RED))];
    assert_eq!(generate_frames(&config(2, 2, 0), layers), Frames::new());
}

#[test]
fn single_opaque_layer_comes_out_unchanged() {
    let grid = vec![vec![RED, GREEN, (1, 2, 3, 255)], vec![BLUE, (9, 8, 7, 255), RED]];
    let layers = vec![LayerPixmap::Still(grid.clone())];
    assert_eq!(generate_frames(&config(3, 2, 1), layers), vec![grid]);
}

#[test]
fn front_opaque_layer_hides_the_back_one() {
    let back = solid(2, 2, RED);
    let front = vec![vec![GREEN, BLUE], vec![BLUE, GREEN]];
    let layers = vec![LayerPixmap::Still(back), LayerPixmap::Still(front.clone())];
    assert_eq!(generate_frames(&config(2, 2, 1), layers), vec![front]);
}

#[test]
fn transparent_pixel_lets_the_background_show() {
    let back = solid(2, 1, RED);
    let front = vec![vec![(0, 255, 0, 0), BLUE]];
    let layers = vec![LayerPixmap::Still(back), LayerPixmap::Still(front)];
    assert_eq!(generate_frames(&config(2, 1, 1), layers), vec![vec![vec![RED, BLUE]]]);
}

#[test]
fn transparent_pixel_over_nothing_is_clear() {
    let layers = vec![LayerPixmap::Still(vec![vec![(9, 9, 9, 0)]])];
    assert_eq!(generate_frames(&config(1, 1, 1), layers), vec![vec![vec![CLEAR]]]);
}

#[test]
fn translucent_pixel_over_nothing_keeps_color_and_alpha() {
    let layers = vec![LayerPixmap::Still(vec![vec![(200, 100, 50, 128)]])];
    assert_eq!(generate_frames(&config(1, 1, 1), layers), vec![vec![vec![(200, 100, 50, 128)]]]);
}

#[test]
fn translucent_over_opaque_blends_exactly() {
    let layers = vec![
        LayerPixmap::Still(vec![vec![(255, 0, 0, 255)]]),
        LayerPixmap::Still(vec![vec![(0, 0, 255, 128)]]),
    ];
    // red: 127 * 255 / 255 = 127; blue: 128 * 255 / 255 = 128.
    assert_eq!(generate_frames(&config(1, 1, 1), layers), vec![vec![vec![(127, 0, 128, 255)]]]);
}

#[test]
fn two_translucent_pixels_blend_exactly() {
    let layers = vec![
        LayerPixmap::Still(vec![vec![(255, 0, 0, 128)]]),
        LayerPixmap::Still(vec![vec![(0, 0, 255, 128)]]),
    ];
    // alpha = 48896 / 65025, red = 4145280 / 48896, blue = 8323200 / 48896, all rounded down.
    assert_eq!(generate_frames(&config(1, 1, 1), layers), vec![vec![vec![(84, 0, 170, 191)]]]);
}

#[test]
fn thirty_translucent_layers_stay_exact() {
    let mut layers = Vec::new();
    for i in 0..30usize {
        let p = ((i * 8 % 256) as u8, ((255 - i * 8) % 256) as u8, 100u8, (100 + i) as u8);
        layers.push(LayerPixmap::Still(vec![vec![p]]));
    }
    assert_eq!(generate_frames(&config(1, 1, 1), layers), vec![vec![vec![(224, 30, 100, 254)]]]);
}

#[test]
fn two_hundred_translucent_layers_stay_exact() {
    let mut layers = Vec::new();
    for i in 0..200usize {
        let p = (
            (i * 37 % 256) as u8,
            (i * 91 % 256) as u8,
            (i * 53 % 256) as u8,
            (i * 17 % 255 + 1) as u8,
        );
        layers.push(LayerPixmap::Still(vec![vec![p]]));
    }
    assert_eq!(generate_frames(&config(1, 1, 1), layers), vec![vec![vec![(99, 183, 98, 254)]]]);
}

#[test]
fn grid_smaller_than_the_canvas_covers_its_own_corner() {
    let layers = vec![LayerPixmap::Still(vec![vec![RED]])];
    assert_eq!(
        generate_frames(&config(2, 2, 1), layers),
        vec![vec![vec![RED, CLEAR], vec![CLEAR, CLEAR]]]
    );
}

#[test]
fn grid_larger_than_the_canvas_wraps_around() {
    let layers = vec![LayerPixmap::Still(vec![vec![RED, GREEN, BLUE], vec![GREEN, RED, RED]])];
    // Row 1 lands on row 0 again, column 2 on column 0: the last pixel drawn on a place shows.
    assert_eq!(generate_frames(&config(2, 1, 1), layers), vec![vec![vec![RED, RED]]]);
}

#[test]
fn canvas_without_width_or_height_has_no_pixels() {
    let layers = vec![LayerPixmap::Still(solid(2, 2, RED))];
    let bare: Vec<Pixel> = vec![];
    assert_eq!(generate_frames(&config(0, 2, 1), layers.clone()), vec![vec![bare.clone(), bare]]);
    let none: Vec<Vec<Pixel>> = vec![];
    assert_eq!(generate_frames(&config(2, 0, 2), layers), vec![none.clone(), none]);
}

#[test]
fn video_loops_on_its_own() {
    let layers = vec![LayerPixmap::Video(vec![solid(1, 1, RED), solid(1, 1, GREEN)])];
    assert_eq!(
        generate_frames(&config(1, 1, 4), layers),
        vec![solid(1, 1, RED), solid(1, 1, GREEN), solid(1, 1, RED), solid(1, 1, GREEN)]
    );
}

#[test]
fn videos_of_different_lengths_loop_independently() {
    let layers = vec![
        LayerPixmap::Video(vec![vec![vec![RED, CLEAR]], vec![vec![GREEN, CLEAR]]]),
        LayerPixmap::Video(vec![
            vec![vec![CLEAR, RED]],
            vec![vec![CLEAR, GREEN]],
            vec![vec![CLEAR, BLUE]],
        ]),
    ];
    assert_eq!(
        generate_frames(&config(2, 1, 6), layers),
        vec![
            vec![vec![RED, RED]],
            vec![vec![GREEN, GREEN]],
            vec![vec![RED, BLUE]],
            vec![vec![GREEN, RED]],
            vec![vec![RED, GREEN]],
            vec![vec![GREEN, BLUE]],
        ]
    );
}

#[test]
fn video_without_frames_shows_nothing() {
    let layers = vec![LayerPixmap::Still(solid(1, 1, RED)), LayerPixmap::Video(vec![])];
    assert_eq!(generate_frames(&config(1, 1, 2), layers), vec![solid(1, 1, RED); 2]);
}

#[test]
fn still_under_video_shows_through_clear_pixels() {
    let layers = vec![
        LayerPixmap::Still(vec![vec![BLUE, BLUE]]),
        LayerPixmap::Video(vec![vec![vec![RED, CLEAR]], vec![vec![CLEAR, RED]]]),
    ];
    assert_eq!(
        generate_frames(&config(2, 1, 2), layers),
        vec![vec![vec![RED, BLUE]], vec![vec![BLUE, RED]]]
    );
}

#[test]
fn order_swaps_two_frames() {
    let frames = vec![solid(1, 1, RED), solid(1, 1, GREEN)];
    assert_eq!(order(frames, vec![1, 0]), Ok(vec![solid(1, 1, GREEN), solid(1, 1, RED)]));
}

#[test]
fn order_repeats_a_frame() {
    let frames = vec![solid(1, 1, RED), solid(1, 1, GREEN)];
    assert_eq!(order(frames, vec![0, 0, 0]), Ok(vec![solid(1, 1, RED); 3]));
}

#[test]
fn order_may_leave_frames_out() {
    let frames = vec![solid(1, 1, RED), solid(1, 1, GREEN), solid(1, 1, BLUE)];
    assert_eq!(order(frames.clone(), vec![2]), Ok(vec![solid(1, 1, BLUE)]));
    assert_eq!(order(frames, vec![]), Ok(Frames::new()));
}

#[test]
fn order_beyond_the_last_frame_is_an_index_error() {
    let frames = vec![solid(1, 1, RED), solid(1, 1, GREEN)];
    assert_eq!(order(frames.clone(), vec![0, 2]), Err(CompileError::Index));
    assert_eq!(order(frames, vec![usize::MAX]), Err(CompileError::Index));
    assert_eq!(order(Frames::new(), vec![0]), Err(CompileError::Index));
}

#[test]
fn options_without_order_pass_the_frames_through() {
    let frames = vec![solid(1, 1, RED), solid(1, 1, GREEN)];
    assert_eq!(applyoption(frames.clone(), &Options { order: None }), Ok(frames));
}

#[test]
fn options_with_order_reorder_the_frames() {
    let frames = vec![solid(1, 1, RED), solid(1, 1, GREEN)];
    assert_eq!(
        applyoption(frames.clone(), &Options { order: Some(vec![1, 1, 0]) }),
        Ok(vec![solid(1, 1, GREEN), solid(1, 1, GREEN), solid(1, 1, RED)])
    );
    assert_eq!(
        applyoption(frames, &Options { order: Some(vec![5]) }),
        Err(CompileError::Index)
    );
}

#[test]
fn copy_of_a_grid_is_equal() {
    let grid = vec![vec![RED, GREEN], vec![], vec![BLUE]];
    assert_eq!(copy_grid(&grid), grid);
}
