//! A small 2D software-rendering and game-object toolkit.
//!
//! The crate is organised around four subsystems:
//! a software framebuffer ([`screen::Screen`]) with clipped drawing
//! primitives, a tick-driven sprite/animation system ([`animation`],
//! [`sprite`]), an axis-aligned collision detector ([`collision`]), and a
//! greedy word-wrap text-layout engine with resumable pagination ([`text`]).
//! Window creation, input polling, audio playback and asset decoding are left
//! to external collaborators: the toolkit only consumes raw pixel buffers and
//! plain values.

pub mod animation;
pub mod collision;
pub mod generation;
pub mod objects;
pub mod responsetree;
pub mod screen;
pub mod sprite;
pub mod storyparser;
pub mod text;
pub mod texture;
