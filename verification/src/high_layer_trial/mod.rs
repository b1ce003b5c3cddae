pub mod music_language;
