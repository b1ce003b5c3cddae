//! Rendering of looping, symbolic music into blocks of stereo PCM audio.
//!
//! All quantities are whole numbers: musical time is counted in ticks, of
//! which a sample takes a whole number at every tempo, and amplitudes are
//! in fixed point.

pub mod data;
pub mod high_layer_trial;
pub mod music_state;
pub mod resource_management;
pub mod state;
