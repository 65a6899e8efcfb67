use std::rc::Rc;

use engine2d::animation::{Animation, AnimationData};
use engine2d::collision::{gather_contacts, overlap, Contact, ContactID};
use engine2d::objects::{MovingRect, Rect, Vec2};
use engine2d::screen::Screen;
use engine2d::sprite::Sprite;
use engine2d::texture::Texture;

fn rect_a() -> Rect {
    Rect::new(0, 0, 8, 8)
}

fn rect_b() -> Rect {
    Rect::new(8, 0, 8, 8)
}

#[test]
fn animation_advances_and_wraps() {
    // frames (A, 2 ticks), (B, 3 ticks), looping: after 2 ticks the
    // current frame is B; after 5 ticks total it wraps back to A with
    // zero elapsed
    let data = Rc::new(AnimationData {
        frames: vec![(rect_a(), 2), (rect_b(), 3)],
        looping: true,
    });
    let mut anim = Animation::new(&data);
    assert_eq!(anim.current_frame, 0);
    assert_eq!(anim.current_rect(), rect_a());
    anim.advance(2);
    assert_eq!(anim.current_frame, 1);
    assert_eq!(anim.elapsed, 0);
    assert_eq!(anim.current_rect(), rect_b());
    anim.advance(3);
    assert_eq!(anim.current_frame, 0);
    assert_eq!(anim.elapsed, 0);
    assert_eq!(anim.current_rect(), rect_a());
}

#[test]
fn animation_accumulates_partial_ticks() {
    let data = Rc::new(AnimationData {
        frames: vec![(rect_a(), 2), (rect_b(), 3)],
        looping: true,
    });
    let mut anim = Animation::new(&data);
    anim.advance(1);
    assert_eq!(anim.current_frame, 0);
    assert_eq!(anim.elapsed, 1);
    anim.advance(3);
    assert_eq!(anim.current_frame, 1);
    assert_eq!(anim.elapsed, 2);
    anim.advance(6);
    // 4 + 6 = 10 ticks total: two full 5-tick cycles
    assert_eq!(anim.current_frame, 0);
    assert_eq!(anim.elapsed, 0);
}

#[test]
fn non_looping_animation_parks_on_last_frame() {
    let data = Rc::new(AnimationData {
        frames: vec![(rect_a(), 2), (rect_b(), 3)],
        looping: false,
    });
    let mut anim = Animation::new(&data);
    anim.advance(100);
    assert_eq!(anim.current_frame, 1);
    assert_eq!(anim.elapsed, 3);
    anim.advance(7);
    assert_eq!(anim.current_frame, 1);
    assert_eq!(anim.elapsed, 3);
    assert_eq!(anim.current_rect(), rect_b());
}

#[test]
fn overlap_concrete_pair() {
    let entity = MovingRect::new(10, 10, 5, 5, Vec2::new(0, 0));
    let near = MovingRect::new(12, 12, 5, 5, Vec2::new(0, 0));
    let far = MovingRect::new(20, 20, 5, 5, Vec2::new(0, 0));
    assert!(overlap(&entity, &near));
    assert!(!overlap(&entity, &far));
}

#[test]
fn overlap_counts_touching_edges() {
    let a = MovingRect::new(0, 0, 5, 5, Vec2::new(0, 0));
    let b = MovingRect::new(5, 0, 5, 5, Vec2::new(0, 0));
    assert!(overlap(&a, &b));
    assert!(overlap(&b, &a));
}

#[test]
fn overlap_is_symmetric_on_samples() {
    let cases = [
        (MovingRect::new(0, 0, 3, 3, Vec2::new(0, 0)), MovingRect::new(2, 2, 3, 3, Vec2::new(0, 0))),
        (MovingRect::new(0, 0, 3, 3, Vec2::new(0, 0)), MovingRect::new(9, 9, 3, 3, Vec2::new(0, 0))),
        (MovingRect::new(-5, -5, 10, 2, Vec2::new(0, 0)), MovingRect::new(0, -4, 1, 1, Vec2::new(0, 0))),
    ];
    for (a, b) in cases.iter() {
        assert_eq!(overlap(a, b), overlap(b, a));
    }
}

#[test]
fn zero_size_rect_never_overlaps() {
    let flat = MovingRect::new(2, 2, 0, 5, Vec2::new(0, 0));
    let thin = MovingRect::new(2, 2, 5, 0, Vec2::new(0, 0));
    let solid = MovingRect::new(0, 0, 10, 10, Vec2::new(0, 0));
    assert!(!overlap(&flat, &solid));
    assert!(!overlap(&solid, &flat));
    assert!(!overlap(&thin, &solid));
    assert!(!overlap(&solid, &thin));
    assert!(!overlap(&flat, &thin));
}

#[test]
fn gather_contacts_reports_overlaps_in_input_order() {
    let player = MovingRect::new(0, 0, 10, 10, Vec2::new(0, 0));
    let obstacles = [
        MovingRect::new(5, 5, 3, 3, Vec2::new(0, 0)),   // overlaps
        MovingRect::new(50, 50, 3, 3, Vec2::new(0, 0)), // far away
        MovingRect::new(10, 0, 4, 4, Vec2::new(0, 0)),  // touching edge
    ];
    let contacts = gather_contacts(&player, &obstacles);
    assert_eq!(contacts.len(), 2);
    assert!(matches!(
        contacts[0].get_ids(),
        (ContactID::Player, ContactID::Obstacle(0))
    ));
    assert!(matches!(
        contacts[1].get_ids(),
        (ContactID::Player, ContactID::Obstacle(2))
    ));
}

#[test]
fn gather_contacts_empty_when_nothing_overlaps() {
    let player = MovingRect::new(0, 0, 2, 2, Vec2::new(0, 0));
    let obstacles = [MovingRect::new(10, 10, 2, 2, Vec2::new(0, 0))];
    let contacts = gather_contacts(&player, &obstacles);
    assert!(contacts.is_empty());
}

#[test]
fn contact_get_ids_returns_the_pair() {
    let c = Contact(ContactID::Player, ContactID::Obstacle(7));
    let (a, b) = c.get_ids();
    assert!(matches!(a, ContactID::Player));
    assert!(matches!(b, ContactID::Obstacle(7)));
}

#[test]
fn sprite_draws_its_current_frame() {
    // 2x1 texture: left pixel 10s, right pixel 20s; two frames of one
    // pixel each
    let tex = Rc::new(Texture::new(
        vec![10, 10, 10, 10, 20, 20, 20, 20],
        2,
        1,
    ));
    let data = Rc::new(AnimationData {
        frames: vec![
            (Rect::new(0, 0, 1, 1), 1),
            (Rect::new(1, 0, 1, 1), 1),
        ],
        looping: true,
    });
    let anim = Animation::new(&data);
    let mut sprite = Sprite::new(&tex, anim, Vec2::new(1, 1));

    let buf = vec![0u8; 3 * 3 * 4];
    let mut screen = Screen::wrap(buf, 3, 3, 4);
    screen.draw_sprite(&sprite);
    let out = screen.into_buffer();
    let base = (1 * 3 + 1) * 4;
    assert_eq!(&out[base..base + 4], &[10, 10, 10, 10]);

    // advance one tick: the second frame becomes current
    sprite.update(1);
    let buf2 = vec![0u8; 3 * 3 * 4];
    let mut screen2 = Screen::wrap(buf2, 3, 3, 4);
    screen2.draw_sprite(&sprite);
    let out2 = screen2.into_buffer();
    assert_eq!(&out2[base..base + 4], &[20, 20, 20, 20]);
}
