use asset_registry::asset::{AssetData, AssetType, FileTreeNode};
use asset_registry::registry::{
    AssetRegistry, AssetRegistryError, IngestOutcome, ScanDecision, TextureQuery,
};
use asset_registry::texture::{
    ChannelMask, CompressionMode, Extent2, PixelFormat, Texture, TextureHandle, TextureMetadata,
    TextureSize,
};

fn encode_rgb8(w: u32, h: u32, data: Vec<u8>) -> Vec<u8> {
    let img = image::RgbImage::from_raw(w, h, data).unwrap();
    let mut buf = std::io::Cursor::new(Vec::new());
    image::DynamicImage::ImageRgb8(img)
        .write_to(&mut buf, image::ImageFormat::Png)
        .unwrap();
    buf.into_inner()
}

fn encode_rgba8(w: u32, h: u32, data: Vec<u8>) -> Vec<u8> {
    let img = image::RgbaImage::from_raw(w, h, data).unwrap();
    let mut buf = std::io::Cursor::new(Vec::new());
    image::DynamicImage::ImageRgba8(img)
        .write_to(&mut buf, image::ImageFormat::Png)
        .unwrap();
    buf.into_inner()
}

fn encode_gray16(w: u32, h: u32, data: Vec<u16>) -> Vec<u8> {
    let img = image::ImageBuffer::<image::Luma<u16>, Vec<u16>>::from_raw(w, h, data).unwrap();
    let mut buf = std::io::Cursor::new(Vec::new());
    image::DynamicImage::ImageLuma16(img)
        .write_to(&mut buf, image::ImageFormat::Png)
        .unwrap();
    buf.into_inner()
}

fn registry() -> AssetRegistry {
    AssetRegistry::new("root", "", true).unwrap()
}

fn ingest_a_png(reg: &mut AssetRegistry, mtime: i64) -> IngestOutcome {
    let bytes = encode_rgb8(2, 1, vec![0xFF, 0x00, 0x00, 0x00, 0xFF, 0x00]);
    reg.apply_ingest("root/textures/a.png", mtime, &bytes)
}

#[test]
fn rgb_ingestion_normalizes_payload() {
    let mut reg = registry();
    let outcome = ingest_a_png(&mut reg, 100);
    assert!(matches!(outcome, IngestOutcome::Added { .. }));
    let asset = reg.get_asset("textures/a.png").expect("asset must resolve");
    assert_eq!(asset.path, "a.png");
    assert_eq!(asset.timestamp, 100);
    assert_eq!(asset.thumbnail_id, None);
    let AssetData::Texture(tex) = &asset.data;
    assert_eq!(
        tex.data,
        vec![0xFF, 0x00, 0x00, 0xFF, 0x00, 0xFF, 0x00, 0xFF]
    );
    assert_eq!(tex.settings.data_size.uncompressed, 8);
    assert_eq!(tex.settings.data_size.compressed, 0);
    assert_eq!(tex.settings.source_size, Extent2 { width: 2, height: 1 });
    assert_eq!(tex.settings.max_ingame_size, Extent2 { width: 2, height: 1 });
    assert_eq!(tex.settings.has_channels, ChannelMask { bits: 7 });
    assert_eq!(tex.settings.include_channels, ChannelMask { bits: 7 });
    assert_eq!(tex.settings.format, PixelFormat::R8G8B8A8Srgb);
    assert_eq!(tex.settings.compression_mode, CompressionMode::Uncompressed);
    assert!(tex.settings.srgb);
}

#[test]
fn rgba_ingestion_passes_payload_through() {
    let mut reg = registry();
    ingest_a_png(&mut reg, 100);
    let bytes = encode_rgba8(1, 1, vec![0x01, 0x02, 0x03, 0x04]);
    let outcome = reg.apply_ingest("root/textures/b.png", 100, &bytes);
    assert!(matches!(outcome, IngestOutcome::Added { .. }));
    let asset = reg.get_asset("textures/b.png").expect("asset must resolve");
    let AssetData::Texture(tex) = &asset.data;
    assert_eq!(tex.data, vec![0x01, 0x02, 0x03, 0x04]);
    assert_eq!(tex.settings.has_channels, ChannelMask { bits: 15 });
    assert_eq!(tex.settings.include_channels, ChannelMask { bits: 15 });
    assert_eq!(tex.settings.data_size.uncompressed, 4);
    let listed = reg.get_assets_in_directory("textures").unwrap();
    assert_eq!(listed.len(), 2);
}

#[test]
fn unchanged_timestamp_skips_reingestion() {
    let mut reg = registry();
    ingest_a_png(&mut reg, 100);
    assert_eq!(reg.scan_entry("root/textures/a.png", 100), ScanDecision::Skip);
    assert_eq!(reg.scan_entry("root/textures/a.png", 200), ScanDecision::Ingest);
    assert_eq!(reg.scan_entry("root/textures/new.png", 100), ScanDecision::Ingest);
}

#[test]
fn touched_file_is_replaced_with_fresh_uid() {
    let mut reg = registry();
    let first = ingest_a_png(&mut reg, 100);
    let uid1 = match first {
        IngestOutcome::Added { uid } => uid,
        other => panic!("expected an added entry, got {:?}", other),
    };
    let second = ingest_a_png(&mut reg, 200);
    let uid2 = match second {
        IngestOutcome::Added { uid } => uid,
        other => panic!("expected a replaced entry, got {:?}", other),
    };
    assert_ne!(uid1, uid2);
    let asset = reg.get_asset("textures/a.png").unwrap();
    assert_eq!(asset.timestamp, 200);
    assert_eq!(asset.uid, uid2);
    let listed = reg.get_assets_in_directory("textures").unwrap();
    assert_eq!(listed.len(), 1);
}

#[test]
fn recorded_uid_resolves_to_its_file() {
    let mut reg = registry();
    let uid = match ingest_a_png(&mut reg, 100) {
        IngestOutcome::Added { uid } => uid,
        other => panic!("expected an added entry, got {:?}", other),
    };
    let path = reg.get_path_from_id(uid).expect("uid must be recorded");
    assert_eq!(path, "textures/a.png");
    let resolved = reg.get_asset("textures/a.png").unwrap();
    assert_eq!(resolved.uid, uid);
    assert_eq!(reg.get_path_from_id(uid.wrapping_add(1)), None);
}

#[test]
fn uploader_is_invoked_at_most_once_per_path() {
    let mut reg = registry();
    ingest_a_png(&mut reg, 100);
    let first = reg.get_texture_step("textures/a.png");
    let request = match first {
        TextureQuery::NeedsUpload(req) => req,
        _ => panic!("first query must need an upload"),
    };
    assert_eq!(request.width, 2);
    assert_eq!(request.height, 1);
    assert_eq!(request.format, PixelFormat::R8G8B8A8Srgb);
    assert_eq!(
        request.data,
        vec![0xFF, 0x00, 0x00, 0xFF, 0x00, 0xFF, 0x00, 0xFF]
    );
    let handle = Texture::Rgba8Srgb(TextureHandle { id: 7 });
    reg.store_texture("textures/a.png", handle);
    let second = reg.get_texture_step("textures/a.png");
    match second {
        TextureQuery::Cached(t) => assert_eq!(t, handle),
        _ => panic!("second query must hit the cache"),
    }
    let third = reg.get_texture_step("textures/a.png");
    match third {
        TextureQuery::Cached(t) => assert_eq!(t, handle),
        _ => panic!("third query must hit the cache"),
    }
}

#[test]
fn missing_asset_yields_no_texture() {
    let mut reg = registry();
    ingest_a_png(&mut reg, 100);
    assert!(matches!(
        reg.get_texture_step("textures/missing.png"),
        TextureQuery::NoAsset
    ));
}

#[test]
fn gif_files_are_skipped_without_error() {
    let mut reg = registry();
    let outcome = reg.apply_ingest("root/textures/c.gif", 1, b"GIF89a not a png");
    assert_eq!(outcome, IngestOutcome::Skipped);
    assert!(reg.get_asset("textures/c.gif").is_none());
    let listed = reg
        .get_assets_in_directory("textures")
        .expect("the directory itself is created");
    assert!(listed.is_empty());
}

#[test]
fn sixteen_bit_grayscale_is_skipped() {
    let mut reg = registry();
    let bytes = encode_gray16(1, 1, vec![0x1234]);
    let outcome = reg.apply_ingest("root/textures/d.png", 1, &bytes);
    assert_eq!(outcome, IngestOutcome::Skipped);
    assert!(reg.get_asset("textures/d.png").is_none());
}

#[test]
fn listing_a_file_path_yields_nothing() {
    let mut reg = registry();
    ingest_a_png(&mut reg, 100);
    assert!(reg.get_assets_in_directory("textures/a.png").is_none());
    assert!(reg.get_assets_in_directory("nowhere").is_none());
}

#[test]
fn listing_an_empty_directory_yields_an_empty_list() {
    let mut reg = registry();
    reg.apply_ingest("root/textures/c.gif", 1, b"not ingestible");
    let listed = reg.get_assets_in_directory("textures").unwrap();
    assert_eq!(listed.len(), 0);
}

#[test]
fn absolute_and_relative_spellings_agree() {
    let mut reg = AssetRegistry::new("root", "C:/game/assets", true).unwrap();
    ingest_a_png(&mut reg, 100);
    let by_relative = reg.get_asset("textures/a.png").unwrap().uid;
    let by_absolute = reg
        .get_asset("C:/game/assets/textures/a.png")
        .expect("absolute spelling must resolve")
        .uid;
    assert_eq!(by_relative, by_absolute);
}

#[test]
fn backslashes_are_canonicalized() {
    let mut reg = registry();
    let bytes = encode_rgb8(1, 1, vec![1, 2, 3]);
    let outcome = reg.apply_ingest("root\\textures\\e.png", 5, &bytes);
    assert!(matches!(outcome, IngestOutcome::Added { .. }));
    let asset = reg.get_asset("textures\\e.png").expect("backslash lookup");
    assert_eq!(asset.path, "e.png");
    assert!(reg.get_asset("textures/e.png").is_some());
}

#[test]
fn construction_fails_without_base_path() {
    let err = AssetRegistry::new("missing", "", false).unwrap_err();
    assert_eq!(err.describe(), "Path does not exist: 'missing'");
    match err {
        AssetRegistryError::PathDoesNotExist(p) => assert_eq!(p, "missing"),
        other => panic!("wrong error kind: {:?}", other),
    }
}

#[test]
fn error_descriptions_carry_their_messages() {
    let walk = AssetRegistryError::WalkDirError("walk failed".to_string());
    assert_eq!(walk.describe(), "walk failed");
    let other = AssetRegistryError::Other("formatter".to_string());
    assert_eq!(other.describe(), "formatter");
}

#[test]
fn single_segment_paths_are_rejected() {
    let mut reg = registry();
    assert_eq!(reg.scan_entry("root", 1), ScanDecision::BadPath);
    assert_eq!(reg.apply_ingest("root", 1, b""), IngestOutcome::BadPath);
}

#[test]
fn a_file_on_the_directory_path_is_a_conflict() {
    let mut reg = registry();
    let bytes = encode_rgb8(1, 1, vec![9, 9, 9]);
    let outcome = reg.apply_ingest("root/a.png", 1, &bytes);
    assert!(matches!(outcome, IngestOutcome::Added { .. }));
    assert_eq!(
        reg.scan_entry("root/a.png/deeper.png", 1),
        ScanDecision::PathConflict
    );
    assert_eq!(
        reg.apply_ingest("root/a.png/deeper.png", 1, &bytes),
        IngestOutcome::PathConflict
    );
    assert!(reg.get_asset("a.png").is_some());
}

#[test]
fn corrupt_png_bytes_are_skipped() {
    let mut reg = registry();
    let outcome = reg.apply_ingest("root/textures/broken.png", 1, b"\x89PNG but cut short");
    assert_eq!(outcome, IngestOutcome::Skipped);
    assert!(reg.get_asset("textures/broken.png").is_none());
}

#[test]
fn metadata_defaults_match_ingestion_defaults() {
    let meta = TextureMetadata::default();
    assert_eq!(meta.source_size, Extent2 { width: 0, height: 0 });
    assert_eq!(meta.data_size.uncompressed, 0);
    assert_eq!(meta.has_channels, ChannelMask { bits: 15 });
    assert_eq!(meta.format, PixelFormat::R8G8B8A8Srgb);
    assert_eq!(meta.compression_mode, CompressionMode::Uncompressed);
    assert_eq!(meta.lod_bias, 0);
    assert!(meta.srgb);
    assert!(!meta.invert_green);
    let dims = meta.dimensions();
    assert_eq!(dims, Extent2 { width: 0, height: 0 });
}

#[test]
fn descriptor_helpers_report_their_values() {
    assert_eq!(ChannelMask::rgb().bits, 7);
    assert_eq!(ChannelMask::all().bits, 15);
    assert_eq!(TextureSize::Size8x8.side_length(), 8);
    assert_eq!(TextureSize::Size8192x8192.side_length(), 8192);
    assert_eq!(CompressionMode::DXT5.describe(), "DXT5");
    assert_eq!(CompressionMode::Uncompressed.describe(), "No compression");
}

#[test]
fn asset_payloads_are_tagged_as_textures() {
    let mut reg = registry();
    ingest_a_png(&mut reg, 100);
    let asset = reg.get_asset("textures/a.png").unwrap();
    assert!(matches!(asset.data.asset_type(), AssetType::Texture));
    assert!(matches!(&reg.file_tree, FileTreeNode::Directory(_)));
}

#[test]
fn nested_directories_are_created_on_demand() {
    let mut reg = registry();
    let bytes = encode_rgb8(1, 1, vec![0, 0, 0]);
    let outcome = reg.apply_ingest("root/a/b/c/deep.png", 42, &bytes);
    assert!(matches!(outcome, IngestOutcome::Added { .. }));
    let asset = reg.get_asset("a/b/c/deep.png").unwrap();
    assert_eq!(asset.timestamp, 42);
    assert_eq!(reg.get_assets_in_directory("a/b/c").unwrap().len(), 1);
    assert_eq!(reg.get_assets_in_directory("a/b").unwrap().len(), 0);
}
