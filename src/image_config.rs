use vstd::prelude::*;

verus! {

/// Width of the default image, in pixels.
pub const DEFAULT_WIDTH: u32 = 1920;

/// Height of the default image, in pixels.
pub const DEFAULT_HEIGHT: u32 = 1080;

/// Samples taken for every pixel of the default image.
pub const DEFAULT_SAMPLES_PER_PIXEL: u32 = 100;

/// Bounces a path may take in the default image.
pub const DEFAULT_DEPTH: u32 = 5;

/// Why a configuration cannot be used for rendering.
#[derive(Debug, Clone, Copy, PartialEq, Eq, Structural)]
pub enum ConfigError {
    /// A pixel needs at least one sample; with none its color scale `1 / samples` is undefined.
    NoSamples,
}

/// The size of the image and the sampling effort put into it.
///
/// The color scale applied at output time is `1 / samples_per_pixel`; a well-formed
/// configuration has at least one sample per pixel so that the scale exists.
#[derive(Debug, Clone, Copy, PartialEq, Eq, Structural)]
pub struct ImageConfig {
    pub width: u32,
    pub height: u32,
    pub samples_per_pixel: u32,
    pub depth: u32,
}

impl ImageConfig {
    pub open spec fn wf(&self) -> bool {
        self.samples_per_pixel > 0
    }

    /// Number of pixels of the image, `width * height`.
    pub open spec fn spec_pixel_count(&self) -> nat {
        (self.width as nat) * (self.height as nat)
    }

    /// Builds a configuration, refusing one without samples.
    pub fn new(width: u32, height: u32, samples_per_pixel: u32, depth: u32) -> (r: Result<
        ImageConfig,
        ConfigError,
    >)
        ensures
            r is Err <==> samples_per_pixel == 0,
            r is Err ==> r == Err::<ImageConfig, ConfigError>(ConfigError::NoSamples),
            r matches Ok(c) ==> c.wf() && c.width == width && c.height == height
                && c.samples_per_pixel == samples_per_pixel && c.depth == depth,
    {
        if samples_per_pixel == 0 {
            Err(ConfigError::NoSamples)
        } else {
            Ok(ImageConfig { width, height, samples_per_pixel, depth })
        }
    }

    /// The configuration used when nothing else is asked for: 1920 by 1080 pixels,
    /// 100 samples per pixel and paths of at most 5 bounces.
    pub fn default_config() -> (r: ImageConfig)
        ensures
            r.wf(),
            r.width == DEFAULT_WIDTH,
            r.height == DEFAULT_HEIGHT,
            r.samples_per_pixel == DEFAULT_SAMPLES_PER_PIXEL,
            r.depth == DEFAULT_DEPTH,
    {
        ImageConfig {
            width: DEFAULT_WIDTH,
            height: DEFAULT_HEIGHT,
            samples_per_pixel: DEFAULT_SAMPLES_PER_PIXEL,
            depth: DEFAULT_DEPTH,
        }
    }

    /// Number of pixels of the image.
    pub fn pixel_count(&self) -> (r: usize)
        requires
            self.spec_pixel_count() <= usize::MAX,
        ensures
            r as nat == self.spec_pixel_count(),
    {
        (self.width as usize) * (self.height as usize)
    }
}

} // verus!
