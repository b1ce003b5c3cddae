//! What the player asks of whoever holds the sampled instruments.

use std::sync::Arc;
use vstd::prelude::*;

verus! {

/// A sampled instrument.
pub trait SampleResource {
    /// The samples, left and right, that the preset `preset_idx` gives for
    /// the pitch `pitch`, from the sample `start` of the tone up to the
    /// sample `end`.
    fn get_samples(&self, preset_idx: usize, pitch: u8, start: usize, end: usize) -> Result<
        (Vec<i32>, Vec<i32>),
        String,
    >;
}

/// The holder of the sampled instruments.
pub trait ResourceManager {
    type Resource: SampleResource;

    /// The sampled instrument of the name `name`.
    fn get_sample_resource(&self, name: &String) -> Result<Arc<Self::Resource>, String>;
}

} // verus!
