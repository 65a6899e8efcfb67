//! Sprites: a shared texture, an owned animation, and a world position.
//!
//! Drawing a sprite blits the texture sub-rectangle selected by its
//! animation's current frame onto the screen at the sprite's position. The
//! draw itself never mutates the animation; the owning game state advances
//! it explicitly each tick.

use std::rc::Rc;

use vstd::prelude::*;

use crate::animation::{advance_from, Animation};
use crate::objects::Vec2;
use crate::screen::{blit_covers, pix_in_bounds, pixel_copied, pixel_unchanged, Screen};
use crate::texture::{clone_handle, Texture};

verus! {

/// A drawable game object: a shared texture handle, an exclusively owned
/// animation state, and a world-space position mutated by game logic.
pub struct Sprite {
    pub texture: Rc<Texture>,
    pub animation: Animation,
    pub position: Vec2,
}

impl Sprite {
    pub open spec fn wf(self) -> bool {
        &&& self.texture.wf()
        &&& self.animation.wf()
    }

    pub fn new(texture: &Rc<Texture>, animation: Animation, position: Vec2) -> (s: Sprite)
        requires
            texture.wf(),
            animation.wf(),
        ensures
            s.wf(),
            s.texture == **texture,
            s.animation == animation,
            s.position == position,
    {
        Sprite { texture: clone_handle(texture), animation, position }
    }

    /// Moves the sprite to `position`.
    pub fn set_position(&mut self, position: Vec2)
        ensures
            *final(self) == (Sprite { position, ..*old(self) }),
    {
        self.position = position;
    }

    /// Advances the sprite's animation by `dt` ticks; see
    /// [`crate::animation::advance_from`].
    pub fn update(&mut self, dt: u32)
        requires
            old(self).wf(),
        ensures
            final(self).wf(),
            final(self).texture == old(self).texture,
            final(self).position == old(self).position,
            final(self).animation.data == old(self).animation.data,
            (final(self).animation.current_frame as int, final(self).animation.elapsed as int)
                == advance_from(
                old(self).animation.data.frames@,
                old(self).animation.data.looping,
                old(self).animation.current_frame as int,
                old(self).animation.elapsed + dt,
            ),
    {
        self.animation.advance(dt);
    }
}

impl Screen {
    /// Blits the sprite's current animation frame at its position: a
    /// straight copy of the frame's texture sub-rectangle, clipped on both
    /// sides, every other pixel untouched; the sprite itself is not mutated.
    pub fn draw_sprite(&mut self, sprite: &Sprite)
        requires
            old(self).wf(),
            sprite.wf(),
        ensures
            final(self).wf(),
            old(self).same_dims(*final(self)),
            ({
                let src = sprite.animation.data.frames@[sprite.animation.current_frame as int].0;
                let dest = sprite.position;
                forall|px: int, py: int|
                    pix_in_bounds(old(self).spec_width(), old(self).spec_height(), px, py) ==> {
                        &&& blit_covers(
                            sprite.texture.spec_width(),
                            sprite.texture.spec_height(),
                            src,
                            dest,
                            px,
                            py,
                        ) ==> pixel_copied(
                            final(self).fb(),
                            old(self).spec_width(),
                            px,
                            py,
                            sprite.texture.px(),
                            sprite.texture.spec_width(),
                            src.x + (px - dest.x),
                            src.y + (py - dest.y),
                        )
                        &&& !blit_covers(
                            sprite.texture.spec_width(),
                            sprite.texture.spec_height(),
                            src,
                            dest,
                            px,
                            py,
                        ) ==> pixel_unchanged(
                            old(self).fb(),
                            final(self).fb(),
                            old(self).spec_width(),
                            px,
                            py,
                        )
                    }
            }),
    {
        let src = sprite.animation.current_rect();
        self.bitblt(&sprite.texture, src, sprite.position);
    }
}

} // verus!
