pub mod encode;
pub mod number;
pub mod own;
pub mod parsed;
pub mod resample;
pub mod round_trip;

pub use own::{Data, Wave};
pub use parsed::FormatError;
