//! Sprite decoding for a banked cartridge image, and the pose state machine
//! that plays the decoded animations back in response to controller input.

pub mod bitplanes;
pub mod bytes;
pub mod centered_canvas;
pub mod controller_input;
pub mod enemy;
pub mod error;
pub mod frame_map;
pub mod pose;
pub mod samus;
pub mod snes;
pub mod sprite;
pub mod state_machine;
pub mod util;

pub use controller_input::ControllerInput;
pub use state_machine::StateMachine;
