//! Story data: a named collection of scenes, each with a message and the
//! responses that lead to other scenes.
//!
//! These are plain data types. Reading a story out of a serialized file is
//! the calling program's concern; it hands the parsed values over in this
//! form.

use vstd::prelude::*;

verus! {

/// A whole story: its name and its scenes.
pub struct Story {
    pub story_name: String,
    pub scenes: Vec<NamedScene>,
}

/// A scene together with the name it is referred to by `goto` fields.
pub struct NamedScene {
    pub scene_name: String,
    pub scene: Scene,
}

/// One scene of dialogue: a message to read and the responses offered.
pub struct Scene {
    pub name: String,
    pub message: String,
    pub response_message: String,
    pub responses: Vec<Response>,
}

/// One response choice: its text and the name of the scene it leads to.
pub struct Response {
    pub response: String,
    pub goto: String,
}

} // verus!
