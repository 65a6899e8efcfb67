use engine2d::objects::{filled_circle, filled_rect, hline, Rect, Vec2};
use engine2d::screen::Screen;
use engine2d::texture::Texture;

const RED: [u8; 4] = [255, 0, 0, 255];
const BLUE: [u8; 4] = [0, 0, 255, 255];

fn pixel(buf: &[u8], w: usize, x: usize, y: usize) -> [u8; 4] {
    let base = (y * w + x) * 4;
    [buf[base], buf[base + 1], buf[base + 2], buf[base + 3]]
}

#[test]
fn filled_rect_clips_to_buffer() {
    // 4x4 buffer, rect at (-2,-2) of size 4x4: only the 2x2 in-bounds
    // corner is painted, everything else keeps its initial value
    let buf = vec![0u8; 4 * 4 * 4];
    let mut screen = Screen::wrap(buf, 4, 4, 4);
    screen.filled_rect((-2, -2), (4, 4), RED);
    let out = screen.into_buffer();
    for y in 0..4 {
        for x in 0..4 {
            if x < 2 && y < 2 {
                assert_eq!(pixel(&out, 4, x, y), RED);
            } else {
                assert_eq!(pixel(&out, 4, x, y), [0, 0, 0, 0]);
            }
        }
    }
}

#[test]
fn filled_rect_fully_outside_is_a_no_op() {
    let buf = vec![7u8; 4 * 4 * 4];
    let mut screen = Screen::wrap(buf, 4, 4, 4);
    screen.filled_rect((-10, -10), (2, 2), RED);
    screen.filled_rect((4, 0), (3, 3), RED);
    let out = screen.into_buffer();
    assert!(out.iter().all(|&b| b == 7));
}

#[test]
fn filled_rect_zero_size_draws_nothing() {
    let buf = vec![1u8; 4 * 4 * 4];
    let mut screen = Screen::wrap(buf, 4, 4, 4);
    screen.filled_rect((1, 1), (0, 3), RED);
    screen.filled_rect((1, 1), (3, 0), RED);
    let out = screen.into_buffer();
    assert!(out.iter().all(|&b| b == 1));
}

#[test]
fn clear_overwrites_every_pixel() {
    let buf = vec![0u8; 3 * 2 * 4];
    let mut screen = Screen::wrap(buf, 3, 2, 4);
    screen.clear([1, 2, 3, 4]);
    let out = screen.into_buffer();
    for y in 0..2 {
        for x in 0..3 {
            assert_eq!(pixel(&out, 3, x, y), [1, 2, 3, 4]);
        }
    }
}

#[test]
fn draw_line_horizontal_excludes_end_point() {
    let buf = vec![0u8; 8 * 8 * 4];
    let mut screen = Screen::wrap(buf, 8, 8, 4);
    screen.draw_line((1, 2), (5, 2), RED);
    let out = screen.into_buffer();
    for x in 0..8 {
        let expect = if (1..5).contains(&x) { RED } else { [0, 0, 0, 0] };
        assert_eq!(pixel(&out, 8, x, 2), expect);
    }
}

#[test]
fn draw_line_diagonal() {
    let buf = vec![0u8; 8 * 8 * 4];
    let mut screen = Screen::wrap(buf, 8, 8, 4);
    screen.draw_line((0, 0), (3, 3), RED);
    let out = screen.into_buffer();
    for y in 0..8 {
        for x in 0..8 {
            let expect = if x == y && x < 3 { RED } else { [0, 0, 0, 0] };
            assert_eq!(pixel(&out, 8, x, y), expect);
        }
    }
}

#[test]
fn draw_line_clips_out_of_bounds_part() {
    let buf = vec![0u8; 4 * 4 * 4];
    let mut screen = Screen::wrap(buf, 4, 4, 4);
    // runs off the right edge: no panic, only in-bounds pixels painted
    screen.draw_line((2, 1), (10, 1), RED);
    let out = screen.into_buffer();
    for x in 0..4 {
        let expect = if x >= 2 { RED } else { [0, 0, 0, 0] };
        assert_eq!(pixel(&out, 4, x, 1), expect);
    }
}

#[test]
fn rect_lines_draws_the_outline_only() {
    let buf = vec![0u8; 8 * 8 * 4];
    let mut screen = Screen::wrap(buf, 8, 8, 4);
    screen.rect_lines(Rect::new(1, 1, 4, 4), BLUE);
    let out = screen.into_buffer();
    for y in 0..8i32 {
        for x in 0..8i32 {
            let on_row = (y == 1 || y == 5) && (1..5).contains(&x);
            let on_col = (x == 1 || x == 5) && (1..5).contains(&y);
            let expect = if on_row || on_col { BLUE } else { [0, 0, 0, 0] };
            assert_eq!(pixel(&out, 8, x as usize, y as usize), expect);
        }
    }
}

#[test]
fn rect_method_fills_the_box() {
    let buf = vec![0u8; 6 * 6 * 4];
    let mut screen = Screen::wrap(buf, 6, 6, 4);
    screen.rect(Rect::new(2, 1, 3, 2), RED);
    let out = screen.into_buffer();
    for y in 0..6i32 {
        for x in 0..6i32 {
            let inside = (2..5).contains(&x) && (1..3).contains(&y);
            let expect = if inside { RED } else { [0, 0, 0, 0] };
            assert_eq!(pixel(&out, 6, x as usize, y as usize), expect);
        }
    }
}

#[test]
fn filled_circle_paints_strictly_inside_the_radius() {
    let buf = vec![0u8; 5 * 5 * 4];
    let mut screen = Screen::wrap(buf, 5, 5, 4);
    screen.filled_circle((2, 2), 2, RED);
    let out = screen.into_buffer();
    for y in 0..5i64 {
        for x in 0..5i64 {
            let d2 = (x - 2) * (x - 2) + (y - 2) * (y - 2);
            let expect = if d2 < 4 { RED } else { [0, 0, 0, 0] };
            assert_eq!(pixel(&out, 5, x as usize, y as usize), expect);
        }
    }
}

#[test]
fn filled_circle_radius_zero_draws_nothing() {
    let buf = vec![9u8; 4 * 4 * 4];
    let mut screen = Screen::wrap(buf, 4, 4, 4);
    screen.filled_circle((2, 2), 0, RED);
    let out = screen.into_buffer();
    assert!(out.iter().all(|&b| b == 9));
}

#[test]
fn bitblt_copies_and_clips() {
    // 2x2 texture with four distinct pixels
    let tex_px = vec![
        10, 10, 10, 10, 20, 20, 20, 20, // row 0
        30, 30, 30, 30, 40, 40, 40, 40, // row 1
    ];
    let tex = Texture::new(tex_px, 2, 2);
    let buf = vec![0u8; 3 * 3 * 4];
    let mut screen = Screen::wrap(buf, 3, 3, 4);
    // destination partly above-left of the screen: only the texture's
    // bottom-right pixel lands in bounds, at (0, 0)
    screen.bitblt(&tex, Rect::new(0, 0, 2, 2), Vec2::new(-1, -1));
    let out = screen.into_buffer();
    assert_eq!(pixel(&out, 3, 0, 0), [40, 40, 40, 40]);
    assert_eq!(pixel(&out, 3, 1, 0), [0, 0, 0, 0]);
    assert_eq!(pixel(&out, 3, 0, 1), [0, 0, 0, 0]);
}

#[test]
fn bitblt_clips_the_source_rectangle() {
    let tex_px = vec![
        10, 10, 10, 10, 20, 20, 20, 20, //
        30, 30, 30, 30, 40, 40, 40, 40,
    ];
    let tex = Texture::new(tex_px, 2, 2);
    let buf = vec![0u8; 4 * 4 * 4];
    let mut screen = Screen::wrap(buf, 4, 4, 4);
    // source rect larger than the texture: samples outside it are skipped
    screen.bitblt(&tex, Rect::new(1, 1, 3, 3), Vec2::new(1, 1));
    let out = screen.into_buffer();
    assert_eq!(pixel(&out, 4, 1, 1), [40, 40, 40, 40]);
    assert_eq!(pixel(&out, 4, 2, 1), [0, 0, 0, 0]);
    assert_eq!(pixel(&out, 4, 1, 2), [0, 0, 0, 0]);
}

#[test]
fn legacy_hline_paints_half_open_run() {
    let mut fb = vec![0u8; 240 * 360 * 4];
    hline(&mut fb, 3, 6, 2, RED);
    for x in 0..10 {
        let expect = if (3..6).contains(&x) { RED } else { [0, 0, 0, 0] };
        assert_eq!(pixel(&fb, 240, x, 2), expect);
    }
}

#[test]
fn legacy_line_matches_screen_line() {
    let mut fb = vec![0u8; 240 * 360 * 4];
    engine2d::objects::line(&mut fb, (0, 0), (4, 0), BLUE);
    for x in 0..6 {
        let expect = if x < 4 { BLUE } else { [0, 0, 0, 0] };
        assert_eq!(pixel(&fb, 240, x, 0), expect);
    }
}

#[test]
fn legacy_filled_rect_and_circle() {
    let mut fb = vec![0u8; 240 * 360 * 4];
    filled_rect(&mut fb, (1, 1), (2, 2), RED);
    assert_eq!(pixel(&fb, 240, 1, 1), RED);
    assert_eq!(pixel(&fb, 240, 2, 2), RED);
    assert_eq!(pixel(&fb, 240, 3, 3), [0, 0, 0, 0]);

    let mut fb2 = vec![0u8; 240 * 360 * 4];
    filled_circle(&mut fb2, (5, 5), 2, BLUE);
    assert_eq!(pixel(&fb2, 240, 5, 5), BLUE);
    assert_eq!(pixel(&fb2, 240, 6, 5), BLUE);
    assert_eq!(pixel(&fb2, 240, 7, 5), [0, 0, 0, 0]);
}

#[test]
fn later_draws_overwrite_earlier_ones() {
    let buf = vec![0u8; 4 * 4 * 4];
    let mut screen = Screen::wrap(buf, 4, 4, 4);
    screen.filled_rect((0, 0), (4, 4), RED);
    screen.filled_rect((1, 1), (2, 2), BLUE);
    let out = screen.into_buffer();
    assert_eq!(pixel(&out, 4, 0, 0), RED);
    assert_eq!(pixel(&out, 4, 1, 1), BLUE);
    assert_eq!(pixel(&out, 4, 2, 2), BLUE);
    assert_eq!(pixel(&out, 4, 3, 3), RED);
}
