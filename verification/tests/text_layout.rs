use std::rc::Rc;

use engine2d::objects::{Rect, Vec2};
use engine2d::screen::Screen;
use engine2d::text::TextInfo;
use engine2d::texture::Texture;

/// A font whose glyphs are all 16 pixels wide and tall: the lowercase
/// letters and the space, laid out left to right on one atlas row.
fn test_font() -> TextInfo {
    let atlas = Rc::new(Texture::new(vec![0u8; 512 * 16 * 4], 512, 16));
    let mut info: Vec<(char, Rect)> = Vec::new();
    let letters = "abcdefghijklmnopqrstuvwxyz ";
    for (k, c) in letters.chars().enumerate() {
        info.push((c, Rect::new(16 * k as i32, 0, 16, 16)));
    }
    TextInfo::new(&atlas, &info)
}

#[test]
fn font_line_height_is_the_tallest_glyph() {
    let font = test_font();
    assert_eq!(font.line_height, 16);
}

#[test]
fn glyph_lookup_later_entry_wins() {
    let atlas = Rc::new(Texture::new(vec![0u8; 64 * 16 * 4], 64, 16));
    let r1 = Rect::new(0, 0, 16, 16);
    let r2 = Rect::new(16, 0, 16, 16);
    let font = TextInfo::new(&atlas, &[('a', r1), ('a', r2)]);
    assert_eq!(font.glyph('a'), Some(r2));
    assert_eq!(font.glyph('b'), None);
}

#[test]
fn layout_wraps_two_words_onto_two_lines() {
    // every glyph 16 px wide; "ab cd" in a 32 px wide, two-line rect:
    // first line "ab", second line "cd", nothing left over
    let font = test_font();
    let (placements, resume) = engine2d::text::layout_text("ab cd", &font, 32, 32);
    assert!(resume.is_none());
    assert_eq!(placements.len(), 2);
    assert_eq!((placements[0].start, placements[0].end), (0, 2));
    assert_eq!((placements[0].line, placements[0].x), (0, 0));
    assert_eq!((placements[1].start, placements[1].end), (3, 5));
    assert_eq!((placements[1].line, placements[1].x), (1, 0));
}

#[test]
fn layout_keeps_words_on_one_line_when_they_fit() {
    let font = test_font();
    // "a b" is 16 + 16 + 16 = 48 px wide
    let (placements, resume) = engine2d::text::layout_text("a b", &font, 48, 16);
    assert!(resume.is_none());
    assert_eq!(placements.len(), 2);
    assert_eq!((placements[0].line, placements[0].x), (0, 0));
    assert_eq!((placements[1].line, placements[1].x), (0, 32));
}

#[test]
fn layout_gives_an_oversized_word_its_own_line() {
    let font = test_font();
    // "abcdef" is 96 px wide, far wider than the 32 px rect: it is still
    // placed, on a line of its own, rather than looping or being dropped
    let (placements, resume) = engine2d::text::layout_text("abcdef", &font, 32, 16);
    assert!(resume.is_none());
    assert_eq!(placements.len(), 1);
    assert_eq!((placements[0].start, placements[0].end), (0, 6));
}

#[test]
fn layout_empty_input_returns_none_immediately() {
    let font = test_font();
    let (placements, resume) = engine2d::text::layout_text("", &font, 32, 16);
    assert!(resume.is_none());
    assert!(placements.is_empty());
}

#[test]
fn layout_whitespace_only_input_returns_none() {
    let font = test_font();
    let (placements, resume) = engine2d::text::layout_text("  \n\t ", &font, 32, 16);
    assert!(resume.is_none());
    assert!(placements.is_empty());
}

#[test]
fn draw_text_in_rect_paginates_without_loss_or_repeat() {
    // one 32 px wide, one-line-tall rect; "ab cd ef" takes three calls,
    // each resuming from the reported index, and renders every word
    // exactly once, in order
    let font = test_font();
    let rect = Rect::new(0, 0, 32, 16);
    let buf = vec![0u8; 64 * 64 * 4];
    let mut screen = Screen::wrap(buf, 64, 64, 4);

    let text = "ab cd ef";
    let mut rendered: Vec<String> = Vec::new();
    let mut remaining = text.to_string();
    let mut calls = 0;
    loop {
        let resume = screen.draw_text_in_rect(&remaining, rect, &font, false);
        calls += 1;
        assert!(calls <= 10, "pagination does not terminate");
        match resume {
            Some(r) => {
                assert!(r > 0, "no progress");
                for w in remaining[..r].split_whitespace() {
                    rendered.push(w.to_string());
                }
                remaining = remaining[r..].to_string();
            }
            None => {
                for w in remaining.split_whitespace() {
                    rendered.push(w.to_string());
                }
                break;
            }
        }
    }
    assert_eq!(calls, 3);
    assert_eq!(rendered, vec!["ab", "cd", "ef"]);
}

#[test]
fn draw_text_in_rect_fitting_text_returns_none() {
    let font = test_font();
    let rect = Rect::new(0, 0, 32, 32);
    let buf = vec![0u8; 64 * 64 * 4];
    let mut screen = Screen::wrap(buf, 64, 64, 4);
    assert!(screen.draw_text_in_rect("ab cd", rect, &font, false).is_none());
}

#[test]
fn draw_text_in_rect_reports_first_word_when_nothing_fits() {
    let font = test_font();
    // a zero-height rect fits no line at all: the resume index points at
    // the first word
    let rect = Rect::new(0, 0, 32, 0);
    let buf = vec![0u8; 64 * 64 * 4];
    let mut screen = Screen::wrap(buf, 64, 64, 4);
    assert_eq!(screen.draw_text_in_rect("  ab", rect, &font, false), Some(2));
}

#[test]
fn allow_overflow_extends_the_vertical_bound_to_the_screen() {
    let font = test_font();
    // the rect itself holds one line, but the screen below it has room
    // for the second: with allow_overflow the text fits
    let rect = Rect::new(0, 0, 32, 16);
    let buf = vec![0u8; 64 * 64 * 4];
    let mut screen = Screen::wrap(buf, 64, 64, 4);
    assert_eq!(screen.draw_text_in_rect("ab cd", rect, &font, false), Some(3));
    assert!(screen.draw_text_in_rect("ab cd", rect, &font, true).is_none());
}

#[test]
fn draw_text_at_pos_skips_unknown_characters() {
    // two 1x1 glyphs with distinct atlas pixels; an unknown character
    // between them neither draws nor advances the cursor
    let atlas = Rc::new(Texture::new(
        vec![11, 11, 11, 11, 22, 22, 22, 22],
        2,
        1,
    ));
    let font = TextInfo::new(
        &atlas,
        &[('a', Rect::new(0, 0, 1, 1)), ('b', Rect::new(1, 0, 1, 1))],
    );
    let buf = vec![0u8; 4 * 4 * 4];
    let mut screen = Screen::wrap(buf, 4, 4, 4);
    screen.draw_text_at_pos("a?b", Vec2::new(0, 0), &font);
    let out = screen.into_buffer();
    assert_eq!(&out[0..4], &[11, 11, 11, 11]);
    assert_eq!(&out[4..8], &[22, 22, 22, 22]);
    assert_eq!(&out[8..12], &[0, 0, 0, 0]);
}

#[test]
fn draw_text_at_pos_uses_proportional_widths() {
    // 'i' is 1 px wide, 'm' is 3 px wide: "im" puts 'm' at x = 1
    let atlas = Rc::new(Texture::new(vec![7u8; 4 * 1 * 4], 4, 1));
    let font = TextInfo::new(
        &atlas,
        &[('i', Rect::new(0, 0, 1, 1)), ('m', Rect::new(1, 0, 3, 1))],
    );
    let buf = vec![0u8; 6 * 2 * 4];
    let mut screen = Screen::wrap(buf, 6, 2, 4);
    screen.draw_text_at_pos("im", Vec2::new(0, 0), &font);
    let out = screen.into_buffer();
    for x in 0..4 {
        assert_eq!(&out[x * 4..x * 4 + 4], &[7, 7, 7, 7]);
    }
    assert_eq!(&out[16..20], &[0, 0, 0, 0]);
}

#[test]
fn draw_text_clips_at_screen_edges() {
    let font = test_font();
    let buf = vec![0u8; 8 * 8 * 4];
    let mut screen = Screen::wrap(buf, 8, 8, 4);
    // drawn mostly off-screen: no panic, and the buffer dimensions hold
    screen.draw_text_at_pos("abc", Vec2::new(-40, -40), &font);
    screen.draw_text_at_pos("abc", Vec2::new(1000, 1000), &font);
    let out = screen.into_buffer();
    assert_eq!(out.len(), 8 * 8 * 4);
}
