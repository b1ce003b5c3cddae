pub mod active_notes;
pub mod effects;
pub mod key_order;
pub mod oscillator;
pub mod pitch_track_player;
pub mod render;
pub mod schedule;

pub use pitch_track_player::PitchTrackPlayer;
