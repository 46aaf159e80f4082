use calyx::asset_registry::AssetRegistry;
use calyx::json_refs::JsonValue;
use calyx::source_version::{
    asset_source_version, file_references, file_source_version, thumbnail_request_from_asset_path,
    thumbnail_source_version, SourceFacts,
};
use calyx::thumbnail_request::{ThumbnailAssetTypes, MATERIAL_TYPE_UUID, MESH_TYPE_UUID, TEXTURE_TYPE_UUID};

const ROOT: &str = "/tmp/calyx-sources";
const TEXTURE: u128 = 0x7001;
const MATERIAL: u128 = 0x7002;

fn registry() -> AssetRegistry {
    let mut registry = AssetRegistry::new(vec![ROOT.to_string()]);
    registry.register_asset_type(TEXTURE_TYPE_UUID, &["png"]);
    registry.register_asset_type(MATERIAL_TYPE_UUID, &["cxmat"]);
    registry.register_asset_type(MESH_TYPE_UUID, &["obj"]);
    for (name, id) in [("textures/source.png", TEXTURE), ("materials/mat.cxmat", MATERIAL)] {
        let path = format!("{ROOT}/{name}");
        let meta_path = path.rsplit_once('.').map(|(stem, _)| format!("{stem}.meta")).unwrap();
        registry.build_asset_meta(ROOT, &path, &meta_path, &path, None, id, &Vec::new());
    }
    registry
}

fn material_document() -> JsonValue {
    JsonValue::Object(vec![
        ("shader".to_string(), JsonValue::Text("00000000-0000-0000-0000-000000000000".to_string())),
        (
            "variables".to_string(),
            JsonValue::Array(vec![JsonValue::Object(vec![(
                "value".to_string(),
                JsonValue::Object(vec![(
                    "Texture2D".to_string(),
                    JsonValue::Object(vec![(
                        "Asset".to_string(),
                        JsonValue::Text("00000000-0000-0000-0000-000000007001".to_string()),
                    )]),
                )]),
            )])]),
        ),
    ])
}

fn facts(registry: &AssetRegistry, texture_version: u64) -> SourceFacts {
    let mut facts = SourceFacts::new();
    facts.record(TEXTURE, texture_version, Vec::new());
    let material_path = format!("{ROOT}/materials/mat.cxmat");
    let refs = file_references(registry, &material_path, Some(&material_document()));
    assert_eq!(refs, vec![TEXTURE]);
    facts.record(MATERIAL, 5, refs);
    facts
}

#[test]
fn thumbnail_request_source_version_includes_referenced_asset_sources() {
    let registry = registry();
    let types = ThumbnailAssetTypes::with_prefab(0);
    let material_path = format!("{ROOT}/materials/mat.cxmat");

    let first = thumbnail_request_from_asset_path(&registry, &types, &facts(&registry, 1), &material_path)
        .expect("material should support thumbnails")
        .source_version;
    let second = thumbnail_request_from_asset_path(&registry, &types, &facts(&registry, 2), &material_path)
        .expect("material should support thumbnails")
        .source_version;

    assert_ne!(first, second);
}

#[test]
fn source_version_of_a_leaf_is_the_digest_prefix() {
    let mut registry = AssetRegistry::new(vec![ROOT.to_string()]);
    registry.register_asset_type(MESH_TYPE_UUID, &["obj"]);
    let path = format!("{ROOT}/rock.obj");
    registry.build_asset_meta(ROOT, &path, &format!("{ROOT}/rock.meta"), &path, None, 0x10, &Vec::new());
    let mut facts = SourceFacts::new();
    facts.record(0x10, 7, Vec::new());
    assert_eq!(thumbnail_source_version(&registry, &facts, 0x10), 17837066417092213418);
    assert_eq!(thumbnail_source_version(&registry, &facts, 0x99), 0);
}

#[test]
fn visited_assets_count_once_and_cycles_end() {
    let registry = registry();
    let mut facts = SourceFacts::new();
    facts.record(MATERIAL, 1, vec![MATERIAL, TEXTURE]);
    facts.record(TEXTURE, 1, vec![MATERIAL]);
    let mut visited = Vec::new();
    let v = asset_source_version(&registry, &facts, MATERIAL, &mut visited);
    assert_ne!(v, 0);
    assert_eq!(visited, vec![MATERIAL, TEXTURE]);
    assert_eq!(asset_source_version(&registry, &facts, TEXTURE, &mut visited), 0);
}

#[test]
fn only_material_and_prefab_files_name_assets() {
    let registry = registry();
    let doc = material_document();
    assert!(file_references(&registry, &format!("{ROOT}/textures/source.png"), Some(&doc)).is_empty());
    assert!(file_references(&registry, &format!("{ROOT}/materials/mat.cxmat"), None).is_empty());
    assert!(file_references(&registry, "noext", Some(&doc)).is_empty());
    let types = ThumbnailAssetTypes::with_prefab(0);
    assert!(thumbnail_request_from_asset_path(&registry, &types, &SourceFacts::new(), "/elsewhere/x.cxmat").is_none());
}

#[test]
fn file_source_version_mixes_time_and_length() {
    assert_eq!(file_source_version(None, 0), 0);
    assert_eq!(file_source_version(None, 3), 3u64 << 32);
    assert_eq!(file_source_version(Some((1, 2)), 3), 13884901890);
    assert_eq!(file_source_version(Some((u64::MAX, 999_999_999)), 0x1_0000_0002), 18446744065119617022);
}

#[test]
fn thumbnail_request_carries_the_meta_id() {
    let registry = registry();
    let types = ThumbnailAssetTypes::with_prefab(0x5f3b);
    let material_path = format!("{ROOT}/materials/mat.cxmat");
    let req = thumbnail_request_from_asset_path(&registry, &types, &facts(&registry, 1), &material_path).unwrap();
    assert_eq!(req.asset_id, MATERIAL);
    assert_eq!(registry.asset_meta_from_id(req.asset_id).unwrap().id, req.asset_id);
}
