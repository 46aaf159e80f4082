use calyx::digest::project_cache_hash;
use calyx::readback::{align_to, readback_layout, unpad_rows, ReadbackLayout};
use calyx::texture_readback::{texture_readback_layout, TextureDescription, TextureDimension};
use calyx::thumbnail_key::{ThumbnailKey, ThumbnailPriority, ThumbnailRequest, ThumbnailStatus};
use calyx::thumbnail_request::{
    cache_file_name, cache_relative_path, frame_margin_cache_key, sanitized_size_px, size_folder,
    thumbnail_source_label, ThumbnailAssetTypes, MATERIAL_TYPE_UUID, MESH_TYPE_UUID,
    SKYBOX_TYPE_UUID, TEXTURE_TYPE_UUID, THUMBNAIL_MAX_SIZE, THUMBNAIL_MIN_SIZE,
};
use calyx::thumbnail_service::{ThumbnailState, WorkerStep};

const PREFAB_TYPE: u128 = 0x5f3b_0d4e_91a2_4c6b_8f10_2d7e_aa41_c903;

fn request(source_version: u64) -> ThumbnailRequest {
    ThumbnailRequest {
        asset_id: 1,
        asset_type: 2,
        source_path: Some("assets/texture.png".to_string()),
        source_version,
    }
}

#[test]
fn render_settings_sanitize_size_margin_and_cache_key() {
    assert_eq!(sanitized_size_px(1), THUMBNAIL_MIN_SIZE);
    assert_eq!(frame_margin_cache_key(25), "frame-margin-25");
    assert_eq!(sanitized_size_px(u32::MAX), THUMBNAIL_MAX_SIZE);
    assert_eq!(sanitized_size_px(256), 256);
    assert_eq!(frame_margin_cache_key(0), "frame-margin-0");
    assert_eq!(frame_margin_cache_key(450), "frame-margin-450");
}

#[test]
fn thumbnail_request_key_uses_asset_id_and_source_version_only() {
    let request = ThumbnailRequest {
        asset_id: 0xabc,
        asset_type: MESH_TYPE_UUID,
        source_path: Some("assets/meshes/tank.obj".to_string()),
        source_version: 42,
    };
    let same_key_different_type_and_path = ThumbnailRequest {
        asset_type: TEXTURE_TYPE_UUID,
        source_path: Some("assets/textures/tank.png".to_string()),
        ..request.clone()
    };

    assert_eq!(
        request.key(),
        ThumbnailKey {
            asset_id: request.asset_id,
            source_version: request.source_version
        }
    );
    assert_eq!(request.key(), same_key_different_type_and_path.key());
}

#[test]
fn thumbnail_type_names_cover_supported_and_unknown_assets() {
    let types = ThumbnailAssetTypes::with_prefab(PREFAB_TYPE);
    assert_eq!(types.thumbnail_asset_type_name(TEXTURE_TYPE_UUID), "texture");
    assert_eq!(types.thumbnail_asset_type_name(MATERIAL_TYPE_UUID), "material");
    assert_eq!(types.thumbnail_asset_type_name(MESH_TYPE_UUID), "mesh");
    assert_eq!(types.thumbnail_asset_type_name(PREFAB_TYPE), "prefab");
    assert_eq!(types.thumbnail_asset_type_name(SKYBOX_TYPE_UUID), "skybox");
    assert_eq!(types.thumbnail_asset_type_name(0), "unknown");

    assert!(types.is_supported_asset_type(MESH_TYPE_UUID));
    assert!(!types.is_supported_asset_type(0));
}

#[test]
fn thumbnail_cache_path_includes_size_settings_type_and_request_identity() {
    let types = ThumbnailAssetTypes::with_prefab(PREFAB_TYPE);
    let request = ThumbnailRequest {
        asset_id: 0x1234,
        asset_type: PREFAB_TYPE,
        source_path: Some("assets/prefabs/tank.cxprefab".to_string()),
        source_version: 0xfeed_beef,
    };

    let path_text = format!("/cache/{}", cache_relative_path(&types, 256, 123, &request));
    assert!(path_text.contains("/256px/frame-margin-123/prefab/"));
    assert!(path_text.ends_with("/00000000-0000-0000-0000-000000001234-00000000feedbeef.png"));
}

#[test]
fn cache_names_are_built_from_their_parts() {
    assert_eq!(size_folder(64), "64px");
    let r = ThumbnailRequest { asset_id: u128::MAX, ..request(0) };
    assert_eq!(cache_file_name(&r), "ffffffff-ffff-ffff-ffff-ffffffffffff-0000000000000000.png");
    assert_eq!(thumbnail_source_label(&r), "assets/texture.png");
    let unnamed = ThumbnailRequest { source_path: None, ..request(0) };
    assert_eq!(thumbnail_source_label(&unnamed), "<unknown>");
}

#[test]
fn project_cache_hash_is_sha1_of_forward_slashed_root() {
    assert_eq!(project_cache_hash("abc"), "a9993e364706816aba3e25717850c26c9cd0d89d");
    assert_eq!(project_cache_hash("C:\\proj\\assets"), project_cache_hash("C:/proj/assets"));
    assert_ne!(project_cache_hash("a"), project_cache_hash("b"));
}

#[test]
fn changing_render_settings_invalidates_in_flight_results() {
    let mut state: ThumbnailState<u32> = ThumbnailState::new();
    let original_epoch = state.cache_epoch();

    state.change_render_settings();

    assert_eq!(state.cache_epoch(), original_epoch.wrapping_add(1));
}

#[test]
fn results_of_an_old_epoch_are_not_stored() {
    let mut state: ThumbnailState<u32> = ThumbnailState::new();
    let r = request(5);
    state.request(r.clone(), ThumbnailPriority::Normal);
    let (job, epoch) = match state.next_step() {
        WorkerStep::Generate { job, cache_epoch } => (job, cache_epoch),
        _ => panic!("a job was queued"),
    };
    assert_eq!(job.key(), r.key());
    assert!(state.should_store(epoch, r.key()));
    state.change_render_settings();
    assert!(!state.should_store(epoch, r.key()));
    assert!(!state.finish(epoch, r.key(), 7));
    assert!(state.texture(r.key()).is_none());
    assert_eq!(state.status(r.key()), ThumbnailStatus::Missing);
}

#[test]
fn finished_texture_is_kept_and_stop_wins() {
    let mut state: ThumbnailState<u32> = ThumbnailState::new();
    let r = request(9);
    state.request(r.clone(), ThumbnailPriority::High);
    let epoch = match state.next_step() {
        WorkerStep::Generate { cache_epoch, .. } => cache_epoch,
        _ => panic!("a job was queued"),
    };
    assert!(state.finish(epoch, r.key(), 42));
    assert_eq!(state.texture(r.key()), Some(&42));
    assert_eq!(state.status(r.key()), ThumbnailStatus::Ready);
    state.invalidate_cache();
    state.request_stop();
    assert!(matches!(state.next_step(), WorkerStep::Stop));
}

#[test]
fn invalidation_comes_before_work_and_then_waits() {
    let mut state: ThumbnailState<u32> = ThumbnailState::new();
    state.invalidate_cache();
    assert!(matches!(state.next_step(), WorkerStep::InvalidateCache));
    assert!(matches!(state.next_step(), WorkerStep::Wait));
}

#[test]
fn failures_are_reported_up_to_the_threshold() {
    let mut state: ThumbnailState<u32> = ThumbnailState::new();
    let r = request(1);
    let mut reported = Vec::new();
    for _ in 0..4 {
        state.request(r.clone(), ThumbnailPriority::Normal);
        if let WorkerStep::Generate { cache_epoch, .. } = state.next_step() {
            reported.push(state.fail(cache_epoch, r.key(), "bad".to_string()));
        }
    }
    assert_eq!(reported, vec![true, true, true]);
}

#[test]
fn align_to_rounds_up_to_multiples() {
    assert_eq!(align_to(0, 256), 0);
    assert_eq!(align_to(1, 256), 256);
    assert_eq!(align_to(256, 256), 256);
    assert_eq!(align_to(1024, 256), 1024);
    assert_eq!(align_to(1025, 256), 1280);
    assert_eq!(align_to(7, 1), 7);
}

#[test]
fn readback_layout_checks_size_and_pads_rows() {
    let layout = readback_layout(10, 10, 10, 256).unwrap();
    assert_eq!(
        layout,
        ReadbackLayout {
            width: 10,
            height: 10,
            unpadded_bytes_per_row: 40,
            padded_bytes_per_row: 256
        }
    );
    assert_eq!(
        readback_layout(16, 8, 16, 256).unwrap_err(),
        "thumbnail cache requires 16x16 textures, got 16x8"
    );
}

#[test]
fn unpad_rows_drops_row_padding() {
    let layout = ReadbackLayout {
        width: 1,
        height: 2,
        unpadded_bytes_per_row: 4,
        padded_bytes_per_row: 8,
    };
    let data: Vec<u8> = (0u8..16).collect();
    assert_eq!(unpad_rows(&data, layout), vec![0, 1, 2, 3, 8, 9, 10, 11]);
}

fn description(format: &str, dimension: TextureDimension, layers: u32, samples: u32, size: u32) -> TextureDescription {
    TextureDescription {
        format: format.to_string(),
        dimension,
        width: size,
        height: size,
        depth_or_array_layers: layers,
        sample_count: samples,
    }
}

#[test]
fn texture_readback_checks_format_shape_and_size_in_turn() {
    assert_eq!(
        texture_readback_layout(&description("Bgra8Unorm", TextureDimension::D3, 2, 4, 8), 16, 256).unwrap_err(),
        "thumbnail cache requires Rgba8Unorm textures, got Bgra8Unorm"
    );
    assert_eq!(
        texture_readback_layout(&description("Rgba8Unorm", TextureDimension::D2, 6, 1, 16), 16, 256).unwrap_err(),
        "thumbnail cache requires a single-sample 2D texture"
    );
    assert_eq!(
        texture_readback_layout(&description("Rgba8Unorm", TextureDimension::D2, 1, 4, 16), 16, 256).unwrap_err(),
        "thumbnail cache requires a single-sample 2D texture"
    );
    assert_eq!(
        texture_readback_layout(&description("Rgba8Unorm", TextureDimension::D1, 1, 1, 16), 16, 256).unwrap_err(),
        "thumbnail cache requires a single-sample 2D texture"
    );
    assert_eq!(
        texture_readback_layout(&description("Rgba8Unorm", TextureDimension::D2, 1, 1, 8), 16, 256).unwrap_err(),
        "thumbnail cache requires 16x16 textures, got 8x8"
    );
    assert_eq!(
        texture_readback_layout(&description("Rgba8Unorm", TextureDimension::D2, 1, 1, 16), 16, 256).unwrap(),
        ReadbackLayout { width: 16, height: 16, unpadded_bytes_per_row: 64, padded_bytes_per_row: 256 }
    );
}

#[test]
fn nil_uuid_gets_no_thumbnail() {
    let types = ThumbnailAssetTypes::with_prefab(PREFAB_TYPE);
    assert!(!types.is_supported_asset_type(0));
    assert!(types.is_supported_asset_type(MESH_TYPE_UUID));
    assert!(types.is_supported_asset_type(PREFAB_TYPE));
}
