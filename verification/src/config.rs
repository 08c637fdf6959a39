//! The settings of a render, checked before any ray is traced.

use vstd::prelude::*;

verus! {

/// Why a render cannot start.
#[derive(Clone, Copy, Debug, PartialEq, Eq)]
pub enum ConfigError {
    /// The image has no columns.
    ZeroWidth,
    /// The image has columns but no rows.
    ZeroHeight,
    /// The image has pixels but no pixel gets a sample.
    NoSamples,
}

/// Checks the size of the image and the number of samples for each pixel:
/// the image must have a column and a row, and each pixel a sample. The
/// first of these that is missing is named. The depth of the paths needs no
/// check: a path without depth is black.
pub fn check(image_width: u32, image_height: u32, samples_per_pixel: u32) -> (res: Result<
    (),
    ConfigError,
>)
    ensures
        res is Ok <==> image_width > 0 && image_height > 0 && samples_per_pixel > 0,
        res == Err::<(), ConfigError>(ConfigError::ZeroWidth) <==> image_width == 0,
        res == Err::<(), ConfigError>(ConfigError::ZeroHeight) <==> image_width > 0 && image_height
            == 0,
        res == Err::<(), ConfigError>(ConfigError::NoSamples) <==> image_width > 0 && image_height
            > 0 && samples_per_pixel == 0,
{
    if image_width == 0 {
        Err(ConfigError::ZeroWidth)
    } else if image_height == 0 {
        Err(ConfigError::ZeroHeight)
    } else if samples_per_pixel == 0 {
        Err(ConfigError::NoSamples)
    } else {
        Ok(())
    }
}

} // verus!
