//! Command ids understood across modules.

use vstd::prelude::*;

verus! {

/// Which of a module's two command logs a command goes to.
#[derive(Clone, Copy, Debug, PartialEq, Eq, Structural)]
pub enum Source {
    /// The render channel, drained by the drawing layer.
    GAPI,
    /// The logic channel, drained by the module's step.
    Processor,
}

/// Execute macro.
pub const EXECUTE_MACRO: u64 = 0x0001_0001;

/// Start recording macro.
pub const BEGIN_MACRO: u64 = 0x0001_0002;

/// End recording macro.
pub const END_MACRO: u64 = 0x0001_0003;

/// Update current viewport size.
pub const UPDATE_VIEWPORT: u64 = 0x0001_0004;

/// Add text boundaries.
pub const ADD_TEXT_BOUNDARIES: u64 = 0x0001_0005;

/// On touch start event.
pub const COMMAND_TOUCH_START: u64 = 0x0001_0006;

/// On touch end event.
pub const COMMAND_TOUCH_END: u64 = 0x0001_0007;

/// On touch move event.
pub const COMMAND_TOUCH_MOVE: u64 = 0x0001_0008;

/// Mouse button byte: none that this layer knows.
pub const COMMAND_MOUSE_BUTTON_UNKNOWN: u8 = 0;

/// Mouse button byte: left.
pub const COMMAND_MOUSE_BUTTON_LEFT: u8 = 1;

/// Mouse button byte: right.
pub const COMMAND_MOUSE_BUTTON_RIGHT: u8 = 2;

/// Mouse button byte: middle.
pub const COMMAND_MOUSE_BUTTON_MIDDLE: u8 = 3;

/// Command id to draw lines.
pub const DRAW_LINES: u64 = 0x0002_0001;

/// Command id to draw a connected path.
pub const DRAW_PATH: u64 = 0x0002_0002;

/// Command id to draw quads.
pub const DRAW_QUADS: u64 = 0x0002_0003;

/// Command id to draw quads with a center pivot.
pub const DRAW_CENTERED_QUADS: u64 = 0x0002_0004;

/// Command id to draw texts.
pub const DRAW_TEXTS: u64 = 0x0002_0005;

/// Set the current pipeline to colorize.
pub const SET_COLOR_PIPELINE: u64 = 0x0002_0006;

/// Set the current pipeline to texture.
pub const SET_TEXTURE_PIPELINE: u64 = 0x0002_0007;

/// Set the viewport.
pub const SET_VIEWPORT: u64 = 0x0002_0008;

/// Move.
pub const TRANSLATE: u64 = 0x0003_0001;

/// Rotate.
pub const ROTATE: u64 = 0x0003_0002;

/// Scale.
pub const SCALE: u64 = 0x0003_0003;

/// Load texture and keep it in memory.
pub const LOAD_TEXTURE: u64 = 0x0004_0001;

/// Load macro and keep it in memory.
pub const LOAD_MACRO: u64 = 0x0004_0002;

/// Remove texture from memory.
pub const REMOVE_TEXTURE: u64 = 0x0004_0003;

/// Remove macro from memory.
pub const REMOVE_MACRO: u64 = 0x0004_0004;

/// Update current viewport size.
pub const UPDATE_VIEW_PORT: u64 = 0x0005_0001;

/// Update current touch state.
pub const UPDATE_TOUCH_STATE: u64 = 0x0005_0002;

/// The texture-pipeline command: which texture asset the pipeline applies.
pub struct SetTexturePipelineCommand {
    /// Asset id of the texture to apply.
    pub id: u64,
}

impl SetTexturePipelineCommand {
    /// Create the command for the texture asset `id`.
    pub fn new(id: u64) -> (r: Self)
        ensures
            r.id == id,
    {
        Self { id }
    }
}

} // verus!
