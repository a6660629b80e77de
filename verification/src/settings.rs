//! Render settings and their validation.

use vstd::prelude::*;

verus! {

/// How an image is rendered.
#[derive(PartialEq, Eq, Structural, Debug, Copy, Clone)]
pub struct Settings {
    /// Samples per pixel.
    pub samples: u32,
    /// Size of the worker pool.
    pub threads: usize,
    /// How many times the image is cut each way into tiles.
    pub bboxes: usize,
    /// Shadow rays per light and shading call: the more, the softer the
    /// edge of a shadow.
    pub shadow_samples: u32,
}

impl Settings {
    pub fn new(samples: u32, threads: usize, bboxes: usize, shadow_samples: u32) -> (s: Settings)
        ensures
            s == (Settings { samples, threads, bboxes, shadow_samples }),
    {
        Settings { samples, threads, bboxes, shadow_samples }
    }
}

impl Default for Settings {
    fn default() -> (s: Settings)
        ensures
            s == (Settings { samples: 1, threads: 1, bboxes: 1, shadow_samples: 1 }),
    {
        Settings { samples: 1, threads: 1, bboxes: 1, shadow_samples: 1 }
    }
}

/// Why a render cannot start.
#[derive(PartialEq, Eq, Structural, Debug, Copy, Clone)]
pub enum ConfigError {
    /// The image has no pixels: its width or its height is zero.
    Resolution,
    /// Fewer than one sample per pixel.
    Samples,
    /// Fewer than one worker thread.
    Threads,
    /// Fewer than one shadow ray per light.
    ShadowSamples,
}

/// The first fault of a configuration, if it has one: the resolution is
/// looked at first, then the samples, then the threads, then the shadow
/// samples.
pub open spec fn config_fault(width: u32, height: u32, settings: Settings) -> Option<ConfigError> {
    if width == 0 || height == 0 {
        Some(ConfigError::Resolution)
    } else if settings.samples < 1 {
        Some(ConfigError::Samples)
    } else if settings.threads < 1 {
        Some(ConfigError::Threads)
    } else if settings.shadow_samples < 1 {
        Some(ConfigError::ShadowSamples)
    } else {
        None
    }
}

/// Checks a configuration before rendering begins.
pub fn check_config(width: u32, height: u32, settings: &Settings) -> (r: Result<(), ConfigError>)
    ensures
        r == match config_fault(width, height, *settings) {
            Some(e) => Err::<(), ConfigError>(e),
            None => Ok(()),
        },
{
    if width == 0 || height == 0 {
        Err(ConfigError::Resolution)
    } else if settings.samples < 1 {
        Err(ConfigError::Samples)
    } else if settings.threads < 1 {
        Err(ConfigError::Threads)
    } else if settings.shadow_samples < 1 {
        Err(ConfigError::ShadowSamples)
    } else {
        Ok(())
    }
}

} // verus!
