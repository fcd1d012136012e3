//! A snake game on a wrap-around grid, together with the software renderer
//! that rasterises it into a linear frame buffer.
//!
//! * [`game`] holds the simulation: the plane, the snake and its food.
//! * [`math`] solves the line through two pixels in exact integer arithmetic.
//! * [`gfx`] holds the frame buffer canvas and the tile sprites.
//! * [`screen`] composes one frame from a plane.
//! * [`control`] maps key codes to commands.

pub mod control;
pub mod game;
pub mod gfx;
pub mod math;
pub mod screen;
