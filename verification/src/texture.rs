//! Texture metadata descriptors: pixel format tags, channel masks, sampler
//! hints, and the per-texture settings block produced by ingestion.

use vstd::prelude::*;

verus! {

/// Bitmask over the four color channels: RED=1, GREEN=2, BLUE=4, ALPHA=8.
#[derive(Clone, Copy, Debug, PartialEq, Eq, Structural)]
pub struct ChannelMask {
    pub bits: u8,
}

pub const CHANNEL_RED: u8 = 1;

pub const CHANNEL_GREEN: u8 = 2;

pub const CHANNEL_BLUE: u8 = 4;

pub const CHANNEL_ALPHA: u8 = 8;

impl ChannelMask {
    /// The mask holding red, green and blue, but not alpha.
    pub fn rgb() -> (r: ChannelMask)
        ensures
            r.bits == CHANNEL_RED | CHANNEL_GREEN | CHANNEL_BLUE,
    {
        ChannelMask { bits: CHANNEL_RED | CHANNEL_GREEN | CHANNEL_BLUE }
    }

    /// The mask holding all four channels.
    pub fn all() -> (r: ChannelMask)
        ensures
            r.bits == CHANNEL_RED | CHANNEL_GREEN | CHANNEL_BLUE | CHANNEL_ALPHA,
    {
        ChannelMask { bits: CHANNEL_RED | CHANNEL_GREEN | CHANNEL_BLUE | CHANNEL_ALPHA }
    }
}

/// Pixel format tag of a decoded payload. Ingestion only produces RGBA8 in
/// the sRGB encoding.
#[derive(Clone, Copy, Debug, PartialEq, Eq, Structural)]
pub enum PixelFormat {
    R8G8B8A8Srgb,
}

/// Block-compression mode. Reserved: ingestion always leaves payloads
/// uncompressed.
#[derive(Clone, Copy, Debug, PartialEq, Eq, Structural)]
pub enum CompressionMode {
    Uncompressed,
    DXT1,
    DXT1Cutout,
    DXT5,
}

impl CompressionMode {
    /// A human-readable description of the mode.
    pub fn describe(&self) -> &'static str {
        match self {
            CompressionMode::Uncompressed => "No compression",
            CompressionMode::DXT1 => "DXT1",
            CompressionMode::DXT1Cutout => "DXT1 w/ 1-bit Alpha",
            CompressionMode::DXT5 => "DXT5",
        }
    }
}

/// Optional cap on texture dimensions, powers of two from 8 to 8192.
#[derive(Clone, Copy, Debug, PartialEq, Eq, Structural)]
pub enum TextureSize {
    Size8x8,
    Size16x16,
    Size32x32,
    Size64x64,
    Size128x128,
    Size256x256,
    Size512x512,
    Size1024x1024,
    Size2048x2048,
    Size4096x4096,
    Size8192x8192,
}

impl TextureSize {
    /// The side length in pixels that this cap stands for.
    pub fn side_length(&self) -> (r: u32)
        ensures
            8 <= r <= 8192,
    {
        match self {
            TextureSize::Size8x8 => 8,
            TextureSize::Size16x16 => 16,
            TextureSize::Size32x32 => 32,
            TextureSize::Size64x64 => 64,
            TextureSize::Size128x128 => 128,
            TextureSize::Size256x256 => 256,
            TextureSize::Size512x512 => 512,
            TextureSize::Size1024x1024 => 1024,
            TextureSize::Size2048x2048 => 2048,
            TextureSize::Size4096x4096 => 4096,
            TextureSize::Size8192x8192 => 8192,
        }
    }
}

/// Mipmap generation filter. Reserved: ingestion never generates mipmaps.
#[derive(Clone, Copy, Debug, PartialEq, Eq, Structural)]
pub enum MipGenSettings {
    NoMipmaps,
    Linear,
    Nearest,
    Sharpen,
    Blur,
}

/// Power-of-two padding mode. Reserved: ingestion never pads.
#[derive(Clone, Copy, Debug, PartialEq, Eq, Structural)]
pub enum PowerOfTwoMode {
    NoPadding,
    PadToPowerOfTwo,
    PadToSquarePowerOfTwo,
}

/// Sampler address mode hint for one texture axis.
#[derive(Clone, Copy, Debug, PartialEq, Eq, Structural)]
pub enum AddressMode {
    Repeat,
    MirroredRepeat,
    ClampToEdge,
    ClampToBorder,
}

/// Sampler filter mode hint.
#[derive(Clone, Copy, Debug, PartialEq, Eq, Structural)]
pub enum FilterMode {
    Linear,
    Nearest,
}

/// A linear-space RGBA color with 8-bit channels, used as the padding color.
#[derive(Clone, Copy, Debug, PartialEq, Eq, Structural)]
pub struct LinearRgba {
    pub red: u8,
    pub green: u8,
    pub blue: u8,
    pub alpha: u8,
}

impl LinearRgba {
    /// Opaque black: all color channels zero, alpha fully opaque.
    pub fn opaque_black() -> (r: LinearRgba)
        ensures
            r.red == 0 && r.green == 0 && r.blue == 0 && r.alpha == 255,
    {
        LinearRgba { red: 0, green: 0, blue: 0, alpha: 255 }
    }
}

/// A two-dimensional pixel extent.
#[derive(Clone, Copy, Debug, PartialEq, Eq, Structural)]
pub struct Extent2 {
    pub width: u32,
    pub height: u32,
}

/// Payload byte counts: uncompressed and compressed. Ingestion never
/// compresses, so the compressed count is always zero.
#[derive(Clone, Copy, Debug, PartialEq, Eq, Structural)]
pub struct DataSize {
    pub uncompressed: u32,
    pub compressed: u32,
}

/// The per-texture settings block built by ingestion.
#[derive(Clone, Copy, Debug, PartialEq, Eq, Structural)]
pub struct TextureMetadata {
    // info block:
    pub source_size: Extent2,
    pub max_ingame_size: Extent2,
    pub data_size: DataSize,
    pub has_channels: ChannelMask,
    pub format: PixelFormat,
    pub num_mips: u8,
    // compression block:
    pub compression_mode: CompressionMode,
    pub include_channels: ChannelMask,
    pub max_texture_size: Option<TextureSize>,
    pub mip_gen_settings: MipGenSettings,
    pub lod_bias: u8,
    // texture block:
    pub power_of_two_mode: PowerOfTwoMode,
    pub padding_color: LinearRgba,
    pub srgb: bool,
    pub x_axis_tiling: AddressMode,
    pub y_axis_tiling: AddressMode,
    pub invert_green: bool,
    pub filter: FilterMode,
}

impl TextureMetadata {
    /// The source extent of the texture.
    pub fn dimensions(&self) -> (r: Extent2)
        ensures
            r == self.source_size,
    {
        Extent2 { width: self.source_size.width, height: self.source_size.height }
    }
}

/// The settings every field of which is at its default, except that the
/// sizes and channel masks are as given. This is exactly the settings block
/// that ingestion builds.
pub open spec fn metadata_for(size: Extent2, len: u32, channels: ChannelMask) -> TextureMetadata {
    TextureMetadata {
        source_size: size,
        max_ingame_size: size,
        data_size: DataSize { uncompressed: len, compressed: 0 },
        has_channels: channels,
        format: PixelFormat::R8G8B8A8Srgb,
        num_mips: 0,
        compression_mode: CompressionMode::Uncompressed,
        include_channels: channels,
        max_texture_size: None,
        mip_gen_settings: MipGenSettings::NoMipmaps,
        lod_bias: 0,
        power_of_two_mode: PowerOfTwoMode::NoPadding,
        padding_color: LinearRgba { red: 0, green: 0, blue: 0, alpha: 255 },
        srgb: true,
        x_axis_tiling: AddressMode::Repeat,
        y_axis_tiling: AddressMode::Repeat,
        invert_green: false,
        filter: FilterMode::Linear,
    }
}

/// Builds the settings block that ingestion uses: sizes and channel masks as
/// given, every other field at its default.
pub fn make_metadata(size: Extent2, len: u32, channels: ChannelMask) -> (r: TextureMetadata)
    ensures
        r == metadata_for(size, len, channels),
{
    TextureMetadata {
        source_size: size,
        max_ingame_size: size,
        data_size: DataSize { uncompressed: len, compressed: 0 },
        has_channels: channels,
        format: PixelFormat::R8G8B8A8Srgb,
        num_mips: 0,
        compression_mode: CompressionMode::Uncompressed,
        include_channels: channels,
        max_texture_size: None,
        mip_gen_settings: MipGenSettings::NoMipmaps,
        lod_bias: 0,
        power_of_two_mode: PowerOfTwoMode::NoPadding,
        padding_color: LinearRgba::opaque_black(),
        srgb: true,
        x_axis_tiling: AddressMode::Repeat,
        y_axis_tiling: AddressMode::Repeat,
        invert_green: false,
        filter: FilterMode::Linear,
    }
}

impl Default for TextureMetadata {
    /// All fields at their defaults: zero sizes, all channels, RGBA8-sRGB.
    fn default() -> (r: TextureMetadata)
        ensures
            r == metadata_for(
                Extent2 { width: 0, height: 0 },
                0u32,
                ChannelMask { bits: CHANNEL_RED | CHANNEL_GREEN | CHANNEL_BLUE | CHANNEL_ALPHA },
            ),
    {
        make_metadata(
            Extent2 { width: 0, height: 0 },
            0,
            ChannelMask { bits: CHANNEL_RED | CHANNEL_GREEN | CHANNEL_BLUE | CHANNEL_ALPHA },
        )
    }
}

/// An opaque handle standing for a live GPU image resource. The application
/// layer owns the device objects and keys them by this identifier.
#[derive(Clone, Copy, Debug, PartialEq, Eq, Structural)]
pub struct TextureHandle {
    pub id: u64,
}

/// A format-tagged GPU texture handle, as handed out by the upload cache.
#[derive(Clone, Copy, Debug, PartialEq, Eq, Structural)]
pub enum Texture {
    Rgba8Srgb(TextureHandle),
}

} // verus!
