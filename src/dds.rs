//! Settings of the block-compression stage.

use vstd::prelude::*;

verus! {

/// The block format of a compressed container.
#[derive(PartialEq, Eq, Structural, Clone, Copy, Debug)]
pub enum BlockFormat {
    /// Four-channel blocks read as opaque colour, with no separate alpha block.
    Bc1RgbaUnormSrgb,
    /// Blocks that carry full alpha.
    Bc7RgbaUnormSrgb,
}

/// How hard the encoder works on each block.
#[derive(PartialEq, Eq, Structural, Clone, Copy, Debug)]
pub enum Quality {
    Fast,
    Normal,
    Slow,
}

/// Which mipmap levels the container holds.
#[derive(PartialEq, Eq, Structural, Clone, Copy, Debug)]
pub enum Mipmaps {
    Disabled,
    FromSurface,
    GeneratedExact(u32),
    GeneratedAutomatic,
}

/// The block format for an image with `channels` channels: alpha-carrying
/// blocks for four channels, opaque ones for anything else.
pub open spec fn format_for_channels(channels: u8) -> BlockFormat {
    if channels == 4 { BlockFormat::Bc7RgbaUnormSrgb } else { BlockFormat::Bc1RgbaUnormSrgb }
}

impl BlockFormat {
    pub open spec fn spec_carries_alpha(self) -> bool {
        self == BlockFormat::Bc7RgbaUnormSrgb
    }

    /// Whether blocks of this format carry an alpha channel of their own.
    #[verifier::when_used_as_spec(spec_carries_alpha)]
    pub fn carries_alpha(self) -> (r: bool)
        ensures
            r == self.spec_carries_alpha(),
    {
        match self {
            BlockFormat::Bc7RgbaUnormSrgb => true,
            BlockFormat::Bc1RgbaUnormSrgb => false,
        }
    }
}

/// The block format chosen for a decoded image with `channels` channels.
pub fn map_channels_format(channels: u8) -> (r: BlockFormat)
    ensures
        r == format_for_channels(channels),
        channels == 3 ==> r == BlockFormat::Bc1RgbaUnormSrgb && !r.carries_alpha(),
        channels == 4 ==> r == BlockFormat::Bc7RgbaUnormSrgb && r.carries_alpha(),
{
    match channels {
        3 => BlockFormat::Bc1RgbaUnormSrgb,
        4 => BlockFormat::Bc7RgbaUnormSrgb,
        _ => BlockFormat::Bc1RgbaUnormSrgb,
    }
}

/// The encoder settings used for every container.
pub struct DdsConvertConfig {
    pub quality: Quality,
    pub mipmaps: Mipmaps,
}

impl DdsConvertConfig {
    /// Normal quality with a full, automatically generated mipmap chain.
    pub fn new() -> (r: DdsConvertConfig)
        ensures
            r.quality == Quality::Normal,
            r.mipmaps == Mipmaps::GeneratedAutomatic,
    {
        DdsConvertConfig { quality: Quality::Normal, mipmaps: Mipmaps::GeneratedAutomatic }
    }
}

} // verus!
