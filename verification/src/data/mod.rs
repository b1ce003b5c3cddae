pub mod music_info;
pub mod wave;
