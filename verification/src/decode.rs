//! Texture ingestion: decoding a PNG byte stream and normalizing it into a
//! tightly packed RGBA8 payload with its metadata descriptor.
//!
//! The decoder itself is an outside library; everything it returns is
//! normalized and packaged here by verified code.

use vstd::prelude::*;
use std::io::Write;
use crate::asset::{Asset, AssetData, TextureAssetData};
use crate::path::{spec_ext, spec_ext_start, ext_start, is_png_ext};
use crate::texture::{
    metadata_for, make_metadata, ChannelMask, Extent2, TextureMetadata, CHANNEL_RED,
    CHANNEL_GREEN, CHANNEL_BLUE, CHANNEL_ALPHA,
};

verus! {

/// What decoding a PNG byte stream yields: width, height, channel count and
/// the raw pixel bytes in the source color layout. A channel count of 3
/// stands for RGB8, 4 for RGBA8; any other count stands for a stream that
/// does not decode to one of those, including streams that do not decode at
/// all.
pub uninterp spec fn png_decoded(bytes: Seq<u8>) -> (u32, u32, u32, Seq<u8>);

/// The outcome of decoding a byte stream as PNG.
pub enum DecodedPng {
    /// An 8-bit RGB image: three bytes per pixel.
    Rgb8 { width: u32, height: u32, data: Vec<u8> },
    /// An 8-bit RGBA image: four bytes per pixel.
    Rgba8 { width: u32, height: u32, data: Vec<u8> },
    /// The stream decoded, but to a color type ingestion does not support.
    Unsupported { description: String },
    /// The stream did not decode.
    Failed,
}

/// Relies on image::load_from_memory_with_format with the PNG format: the
/// decoded image is a function of the input bytes alone, and its raw buffer
/// holds exactly width * height * channels bytes.
#[verifier::external_body]
fn decode_png(bytes: &[u8]) -> (r: DecodedPng)
    ensures
        ({
            let (w, h, c, d) = png_decoded(bytes@);
            match r {
                DecodedPng::Rgb8 { width, height, data } => w == width && h == height && c == 3
                    && d == data@ && data@.len() == 3 * (width as int) * (height as int),
                DecodedPng::Rgba8 { width, height, data } => w == width && h == height && c == 4
                    && d == data@ && data@.len() == 4 * (width as int) * (height as int),
                DecodedPng::Unsupported { .. } => c != 3 && c != 4,
                DecodedPng::Failed => c != 3 && c != 4,
            }
        }),
{
    match image::load_from_memory_with_format(bytes, image::ImageFormat::Png) {
        Ok(image::DynamicImage::ImageRgb8(img)) => {
            let (width, height) = (img.width(), img.height());
            DecodedPng::Rgb8 { width, height, data: img.into_raw() }
        },
        Ok(image::DynamicImage::ImageRgba8(img)) => {
            let (width, height) = (img.width(), img.height());
            DecodedPng::Rgba8 { width, height, data: img.into_raw() }
        },
        Ok(other) => DecodedPng::Unsupported { description: format!("{:?}", other.color()) },
        Err(_) => DecodedPng::Failed,
    }
}

/// Relies on rand::random: a fresh uniformly random 64-bit identifier.
/// Nothing is promised of the value.
#[verifier::external_body]
fn random_u64() -> u64 {
    rand::random()
}

/// Relies on std::io::stderr: prints one diagnostic line naming the file
/// whose color type ingestion does not support.
#[verifier::external_body]
fn log_unsupported_color_type(filename: &str, description: &str) {
    let _ = writeln!(std::io::stderr(), "Unsupported color type: {} - {}", filename, description);
}

/// An RGB8 byte stream with an opaque alpha byte interleaved after every
/// three source bytes.
pub open spec fn rgba_of_rgb(s: Seq<u8>) -> Seq<u8> {
    Seq::new(
        (s.len() / 3 * 4) as nat,
        |i: int|
            if i % 4 == 3 {
                255u8
            } else {
                s[i / 4 * 3 + i % 4]
            },
    )
}

/// The interleaving, chunk by chunk: the four output bytes of pixel `k` are
/// its three source bytes followed by an opaque alpha byte.
pub proof fn lemma_rgba_interleave(s: Seq<u8>, k: int)
    requires
        s.len() % 3 == 0,
        0 <= k < s.len() / 3,
    ensures
        rgba_of_rgb(s).len() == s.len() / 3 * 4,
        rgba_of_rgb(s)[4 * k] == s[3 * k],
        rgba_of_rgb(s)[4 * k + 1] == s[3 * k + 1],
        rgba_of_rgb(s)[4 * k + 2] == s[3 * k + 2],
        rgba_of_rgb(s)[4 * k + 3] == 255,
{
    assert((4 * k) % 4 == 0 && (4 * k) / 4 == k) by (nonlinear_arith);
    assert((4 * k + 1) % 4 == 1 && (4 * k + 1) / 4 == k) by (nonlinear_arith);
    assert((4 * k + 2) % 4 == 2 && (4 * k + 2) / 4 == k) by (nonlinear_arith);
    assert((4 * k + 3) % 4 == 3 && (4 * k + 3) / 4 == k) by (nonlinear_arith);
    assert(k * 3 + 2 < s.len() && 4 * k + 3 < s.len() / 3 * 4) by (nonlinear_arith)
        requires
            s.len() % 3 == 0,
            0 <= k < s.len() / 3,
    ;
}

/// Normalizes an RGB8 byte stream to RGBA8: each group of three source
/// bytes is emitted followed by an opaque alpha byte.
pub fn rgb_to_rgba(rgb: &[u8]) -> (out: Vec<u8>)
    requires
        rgb@.len() % 3 == 0,
    ensures
        out@ == rgba_of_rgb(rgb@),
        out@.len() == rgb@.len() / 3 * 4,
{
    let n = rgb.len();
    let pixels = n / 3;
    let mut out: Vec<u8> = Vec::new();
    let mut j: usize = 0;
    while j < pixels
        invariant
            n == rgb@.len(),
            n % 3 == 0,
            pixels == n / 3,
            0 <= j <= pixels,
            out@.len() == 4 * j,
            forall|i: int|
                0 <= i < 4 * j ==> out@[i] == (if i % 4 == 3 {
                    255u8
                } else {
                    rgb@[i / 4 * 3 + i % 4]
                }),
        decreases pixels - j,
    {
        proof {
            assert(3 * j + 3 <= n) by (nonlinear_arith)
                requires
                    n % 3 == 0,
                    0 <= j < n / 3,
            ;
        }
        out.push(rgb[3 * j]);
        out.push(rgb[3 * j + 1]);
        out.push(rgb[3 * j + 2]);
        out.push(255);
        proof {
            let jj = j as int;
            assert forall|i: int| 4 * jj <= i < 4 * jj + 4 implies out@[i] == (if i % 4 == 3 {
                255u8
            } else {
                rgb@[i / 4 * 3 + i % 4]
            }) by {
                let t = i - 4 * jj;
                assert(i == 4 * jj + t && 0 <= t < 4);
                assert((4 * jj + t) % 4 == t && (4 * jj + t) / 4 == jj) by (nonlinear_arith)
                    requires
                        0 <= t < 4,
                        0 <= jj,
                ;
            }
        }
        j += 1;
    }
    proof {
        assert(out@ =~= rgba_of_rgb(rgb@));
    }
    out
}

/// Whether the byte stream decodes as a PNG of a supported color type.
pub open spec fn png_supported(bytes: Seq<u8>) -> bool {
    png_decoded(bytes).2 == 3 || png_decoded(bytes).2 == 4
}

/// Whether the normalized RGBA8 payload length fits the 32-bit size field.
pub open spec fn payload_fits(bytes: Seq<u8>) -> bool {
    4 * (png_decoded(bytes).0 as int) * (png_decoded(bytes).1 as int) <= u32::MAX
}

/// The normalized RGBA8 payload of the byte stream: RGB8 sources get an
/// opaque alpha byte interleaved, RGBA8 sources pass through unchanged.
pub open spec fn spec_payload(bytes: Seq<u8>) -> Seq<u8> {
    if png_decoded(bytes).2 == 3 {
        rgba_of_rgb(png_decoded(bytes).3)
    } else {
        png_decoded(bytes).3
    }
}

/// The channel mask of the source: RGB for three channels, all four
/// otherwise.
pub open spec fn spec_channels(bytes: Seq<u8>) -> ChannelMask {
    if png_decoded(bytes).2 == 3 {
        ChannelMask { bits: CHANNEL_RED | CHANNEL_GREEN | CHANNEL_BLUE }
    } else {
        ChannelMask { bits: CHANNEL_RED | CHANNEL_GREEN | CHANNEL_BLUE | CHANNEL_ALPHA }
    }
}

/// The settings block ingestion builds for the byte stream: source and
/// in-game size equal to the decoded extent, the payload length recorded
/// uncompressed, channels as decoded, everything else at its default.
pub open spec fn spec_settings(bytes: Seq<u8>) -> TextureMetadata {
    metadata_for(
        Extent2 { width: png_decoded(bytes).0, height: png_decoded(bytes).1 },
        (4 * (png_decoded(bytes).0 as int) * (png_decoded(bytes).1 as int)) as u32,
        spec_channels(bytes),
    )
}

/// Whether a file with name `filename` and contents `bytes` is ingested: its
/// extension must spell png, the stream must decode to a supported color
/// type, and the payload must fit the size field.
pub open spec fn ingestible(filename: Seq<char>, bytes: Seq<u8>) -> bool {
    &&& match spec_ext(filename) {
        Option::Some(e) => is_png_ext(e),
        Option::None => false,
    }
    &&& png_supported(bytes)
    &&& payload_fits(bytes)
}

/// Exec test that an extension slice spells png, ignoring ASCII case.
fn ext_is_png(e: &str) -> (r: bool)
    ensures
        r == is_png_ext(e@),
{
    if e.unicode_len() != 3 {
        return false;
    }
    let c0 = e.get_char(0);
    let c1 = e.get_char(1);
    let c2 = e.get_char(2);
    (c0 == 'p' || c0 == 'P') && (c1 == 'n' || c1 == 'N') && (c2 == 'g' || c2 == 'G')
}

/// Ingests one file: dispatches on the file name's extension, decodes PNG
/// contents, and builds the asset record. Returns nothing for files whose
/// extension or color type is not supported; those files are skipped. The
/// asset's identifier is freshly drawn at random, so nothing is promised of
/// it.
pub fn process_file(filename: &str, mtime: i64, bytes: &[u8]) -> (r: Option<Asset>)
    requires
        filename@.len() + 1 <= usize::MAX,
    ensures
        r is Some <==> ingestible(filename@, bytes@),
        r matches Some(a) ==> {
            &&& a.path@ == filename@
            &&& a.timestamp == mtime
            &&& a.thumbnail_id is None
            &&& a.data matches AssetData::Texture(t) && t.data@ == spec_payload(bytes@)
                && t.settings == spec_settings(bytes@)
            &&& a.wf()
        },
{
    let n = filename.unicode_len();
    let k = ext_start(filename);
    if k > n {
        proof {
            assert(spec_ext(filename@) is None);
        }
        return None;
    }
    let ext = filename.substring_char(k, n);
    proof {
        assert(ext@ == filename@.skip(spec_ext_start(filename@)));
    }
    if !ext_is_png(ext) {
        return None;
    }
    let decoded = decode_png(bytes);
    match decoded {
        DecodedPng::Rgb8 { width, height, data } => {
            proof {
                let w = width as int;
                let h = height as int;
                assert(3 * w * h == 3 * (w * h)) by (nonlinear_arith);
                assert((3 * (w * h)) % 3 == 0) by (nonlinear_arith);
                assert(data@.len() % 3 == 0);
            }
            let payload = rgb_to_rgba(data.as_slice());
            proof {
                assert(payload@.len() == 4 * (width as int) * (height as int)) by (
                nonlinear_arith)
                    requires
                        payload@.len() == data@.len() / 3 * 4,
                        data@.len() == 3 * (width as int) * (height as int),
                ;
            }
            if payload.len() > (u32::MAX as usize) {
                return None;
            }
            let settings = make_metadata(
                Extent2 { width, height },
                payload.len() as u32,
                ChannelMask::rgb(),
            );
            let uid = random_u64();
            Some(
                Asset::new(
                    filename,
                    mtime,
                    uid,
                    None,
                    AssetData::Texture(TextureAssetData::new(settings, payload)),
                ),
            )
        },
        DecodedPng::Rgba8 { width, height, data } => {
            if data.len() > (u32::MAX as usize) {
                return None;
            }
            let settings = make_metadata(
                Extent2 { width, height },
                data.len() as u32,
                ChannelMask::all(),
            );
            let uid = random_u64();
            Some(
                Asset::new(
                    filename,
                    mtime,
                    uid,
                    None,
                    AssetData::Texture(TextureAssetData::new(settings, data)),
                ),
            )
        },
        DecodedPng::Unsupported { description } => {
            log_unsupported_color_type(filename, description.as_str());
            None
        },
        DecodedPng::Failed => None,
    }
}

} // verus!
