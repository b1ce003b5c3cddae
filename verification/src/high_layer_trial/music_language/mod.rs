pub mod sample_lang;

pub use sample_lang::parse_sample_lang;
