use calyx::asset_registry::{
    notify_action, AssetMeta, AssetMetaData, AssetRegistry, AssetReloadError, NotifyAction,
    NotifyEventKind,
};
use calyx::errors::{AssetError, AssetErrorKind};

const ROOT: &str = "/tmp/calyx-assets";
const SCENE_TYPE: u128 = 0x0a11_2233_4455_6677_8899_aabb_ccdd_eeff;
const PREFAB_TYPE: u128 = 0x5f3b_0d4e_91a2_4c6b_8f10_2d7e_aa41_c903;
const MESH_TYPE: u128 = 0x792d264b_de6f_4431_b59f_76f18fdb3bfe;

fn meta(id: u128, name: &str, type_uuid: u128) -> AssetMeta {
    AssetMeta {
        id,
        name: name.to_string(),
        display_name: name.to_string(),
        type_uuid,
        parent: None,
        children: Vec::new(),
        path: None,
    }
}

fn registry() -> AssetRegistry {
    let mut registry = AssetRegistry::new(vec![ROOT.to_string()]);
    registry.register_asset_type(SCENE_TYPE, &["cxscene"]);
    registry.register_asset_type(MESH_TYPE, &["obj", "fbx"]);
    registry
}

fn registry_with_scene(asset_id: u128) -> (AssetRegistry, String) {
    let mut registry = registry();
    let asset_path = format!("{ROOT}/scene.cxscene");
    let stored = AssetMetaData { main: meta(asset_id, "scene", SCENE_TYPE), inner: Vec::new() };
    let written = registry.build_asset_meta(
        ROOT,
        &asset_path,
        &format!("{ROOT}/scene.meta"),
        &asset_path,
        Some(stored),
        0,
        &Vec::new(),
    );
    assert!(written.is_none());
    (registry, asset_path)
}

fn registry_with_parent(child_name: &str, parent_id: u128, child_id: u128) -> AssetRegistry {
    let mut registry = registry();
    let asset_path = format!("{ROOT}/parent.fbx");
    let stored = AssetMetaData {
        main: meta(parent_id, "parent", PREFAB_TYPE),
        inner: vec![meta(child_id, child_name, MESH_TYPE)],
    };
    registry.build_asset_meta(
        ROOT,
        &asset_path,
        &format!("{ROOT}/parent.meta"),
        &asset_path,
        Some(stored),
        0,
        &Vec::new(),
    );
    registry
}

#[test]
fn remove_event_for_replaced_asset_preserves_metadata() {
    let asset_id = 0x51;
    let (mut registry, asset_path) = registry_with_scene(asset_id);

    let action = notify_action(NotifyEventKind::Remove, &asset_path, true);
    assert_eq!(action, NotifyAction::MarkDirty);
    registry.mark_path_dirty(&asset_path, &asset_path, 1_000);

    assert_ne!(action, NotifyAction::RemoveMetaFile);
    assert_eq!(registry.take_due_reloads(1_075), vec![asset_id]);
}

#[test]
fn remove_event_for_deleted_asset_removes_metadata() {
    let (_, asset_path) = registry_with_scene(0x52);
    assert_eq!(
        notify_action(NotifyEventKind::Remove, &asset_path, false),
        NotifyAction::RemoveMetaFile
    );
}

#[test]
fn create_or_update_rejects_disk_asset_name() {
    let mut registry = registry();
    let path = format!("{ROOT}/existing.obj");
    let written = registry.build_asset_meta(
        ROOT,
        &path,
        &format!("{ROOT}/existing.meta"),
        &path,
        None,
        0x77,
        &Vec::new(),
    );
    assert_eq!(written.map(|d| d.main.name), Some("existing".to_string()));

    let result = registry.create_or_update("existing", MESH_TYPE, "mesh", None, 0x78);

    assert!(matches!(
        result,
        Err(AssetError {
            kind: AssetErrorKind::AlreadyExists,
            ..
        })
    ));
}

#[test]
fn sub_asset_meta_uses_local_names_and_canonical_lookup() {
    let (parent_id, child_id) = (0x100, 0x101);
    let registry = registry_with_parent("Body", parent_id, child_id);

    assert_eq!(registry.asset_id("parent/Body"), Some(child_id));
    assert_eq!(
        registry.asset_meta_from_id(child_id).map(|meta| meta.name),
        Some("Body".into())
    );
    assert_eq!(
        registry
            .asset_meta_from_id(child_id)
            .and_then(|meta| meta.parent),
        Some(parent_id)
    );
    assert_eq!(
        registry
            .asset_meta_from_id(parent_id)
            .map(|meta| meta.children),
        Some(vec![child_id])
    );
}

#[test]
fn sub_asset_meta_normalizes_legacy_full_child_names() {
    let child_id = 0x201;
    let registry = registry_with_parent("parent/Body", 0x200, child_id);

    assert_eq!(registry.asset_id("parent/Body"), Some(child_id));
    assert_eq!(
        registry.asset_meta_from_id(child_id).map(|meta| meta.name),
        Some("Body".into())
    );
}

#[test]
fn load_nonexistent_asset_returns_error() {
    let registry = registry();
    let err = registry.resolve_name("meshes/does_not_exist").unwrap_err();
    assert_eq!(err.kind, AssetErrorKind::NotFound);
    assert!(err.to_display_string().contains("meshes/does_not_exist"));
}

#[test]
fn asset_meta_lookup() {
    let mut registry = registry();
    let path = format!("{ROOT}/meshes/cube.obj");
    registry.build_asset_meta(ROOT, &path, &format!("{ROOT}/meshes/cube.meta"), &path, None, 0x300, &Vec::new());
    let id = registry.asset_id("meshes/cube");
    assert!(id.is_some());
    let meta = registry.asset_meta_from_id(id.unwrap());
    assert!(meta.is_some());
    let meta = meta.unwrap();
    assert_eq!(meta.type_uuid, MESH_TYPE);
    assert_eq!(meta.display_name, "cube");
    assert_eq!(meta.path, Some(path.clone()));
    assert_eq!(registry.asset_id_from_path(&path), Some(0x300));
    assert_eq!(registry.asset_id_from_path("/elsewhere/meshes/cube.obj"), None);
}

#[test]
fn names_are_compared_as_normalized_paths() {
    let mut registry = registry();
    assert_eq!(registry.create("fx/./spark", MESH_TYPE, None, 0x400), Ok(0x400));
    assert_eq!(registry.asset_id("fx/spark"), Some(0x400));
    assert_eq!(registry.asset_id("fx//spark"), Some(0x400));
    assert_eq!(registry.asset_id("fx/other/../spark"), Some(0x400));
    assert_eq!(registry.asset_name(0x400), "fx/./spark");
}

#[test]
fn create_refuses_a_taken_name_and_create_or_update_reuses_it() {
    let mut registry = registry();
    assert_eq!(registry.create("quad", MESH_TYPE, Some("Mesh"), 0x500), Ok(0x500));
    let err = registry.create("quad", MESH_TYPE, None, 0x501).unwrap_err();
    assert_eq!(err.kind, AssetErrorKind::AlreadyExists);
    assert_eq!(err.source, Some("asset name `quad`".to_string()));
    assert_eq!(err.to_display_string(), "asset already exists: asset name `quad`");

    assert_eq!(registry.create_or_update("quad", MESH_TYPE, "mesh", None, 0x502), Ok((0x500, true)));
    assert_eq!(registry.asset_meta("quad").map(|m| m.display_name), Some("quad".to_string()));

    let mismatch = registry.create_or_update("quad", SCENE_TYPE, "scene", None, 0x503).unwrap_err();
    assert_eq!(mismatch.kind, AssetErrorKind::TypeMismatch);
    assert_eq!(mismatch.asset_type, Some("scene"));
    assert_eq!(mismatch.source, Some("asset name `quad`".to_string()));
}

#[test]
fn sub_assets_are_created_under_their_canonical_name() {
    let mut registry = registry();
    assert_eq!(AssetRegistry::sub_asset_name("models/ship", "Hull"), "models/ship/Hull");
    assert_eq!(AssetRegistry::local_sub_asset_name("models/ship", "models/ship/Hull"), "Hull");
    assert_eq!(AssetRegistry::local_sub_asset_name("models/ship", "Hull"), "Hull");
    let r = registry.create_or_update_sub_asset(0x600, "models/ship", "Hull", MESH_TYPE, "mesh", None, 0x601);
    assert_eq!(r, Ok((0x601, false)));
    assert_eq!(registry.asset_id("models/ship/Hull"), Some(0x601));
    let m = registry.asset_meta_from_id(0x601).unwrap();
    assert_eq!(m.name, "Hull");
    assert_eq!(m.parent, Some(0x600));

    let other_parent = registry.create_or_update_sub_asset(0x699, "models/ship", "Hull", MESH_TYPE, "mesh", None, 0x601);
    assert_eq!(other_parent.unwrap_err().source, Some("asset name `models/ship/Hull`".to_string()));
}

#[test]
fn attaching_sub_assets_links_both_ways() {
    let mut registry = registry();
    registry.create("a", MESH_TYPE, None, 1).unwrap();
    registry.create("b", MESH_TYPE, None, 2).unwrap();
    let written = registry.load_sub_asset_meta(1, vec![2, 3]);
    assert!(written.is_none());
    assert_eq!(registry.asset_meta_from_id(1).unwrap().children, vec![2, 3]);
    assert_eq!(registry.asset_meta_from_id(2).unwrap().parent, Some(1));
    assert!(registry.asset_meta_from_id(3).is_none());
}

#[test]
fn search_matches_lowercase_display_names_and_types() {
    let mut registry = registry();
    registry.create("a", MESH_TYPE, Some("Red Cube"), 1).unwrap();
    registry.create("b", SCENE_TYPE, Some("Blue Cube"), 2).unwrap();
    registry.create("c", MESH_TYPE, Some("Sphere"), 3).unwrap();
    let mut list = Vec::new();
    registry.search_assets("CUBE", None, &mut list);
    assert_eq!(list.iter().map(|m| m.id).collect::<Vec<_>>(), vec![1, 2]);
    registry.search_assets("cube", Some(MESH_TYPE), &mut list);
    assert_eq!(list.iter().map(|m| m.id).collect::<Vec<_>>(), vec![1]);
    registry.search_assets("", None, &mut list);
    assert_eq!(list.len(), 3);
}

#[test]
fn reloads_wait_for_the_debounce_time() {
    let mut registry = registry();
    registry.mark_asset_dirty(7, 100);
    assert!(registry.take_due_reloads(174).is_empty());
    assert_eq!(registry.take_due_reloads(175), vec![7]);
    assert!(registry.take_due_reloads(10_000).is_empty());
}

#[test]
fn shader_dependents_are_marked_with_the_changed_include() {
    let mut registry = registry();
    let shader = format!("{ROOT}/shaders/lit.wgsl");
    registry.build_asset_meta(ROOT, &shader, &format!("{ROOT}/shaders/lit.meta"), &shader, None, 0x700, &vec!["/inc/common.wgsl".to_string()]);
    registry.mark_path_dirty("/inc/common.wgsl", "/inc/common.wgsl", 5);
    assert_eq!(registry.take_due_reloads(80), vec![0x700]);

    registry.update_asset_dependencies(0x700, "shaders/lit.txt", &vec!["/inc/common.wgsl".to_string()]);
    registry.mark_path_dirty("/inc/common.wgsl", "/inc/common.wgsl", 5);
    assert!(registry.take_due_reloads(80).is_empty());
}

#[test]
fn one_reload_failure_is_kept_per_asset() {
    let mut registry = registry();
    let failure = |id: u128, source: &str| AssetReloadError {
        id,
        path: format!("{ROOT}/x.obj"),
        error: AssetError::load_error().with_source(source.to_string()),
    };
    registry.set_reload_error(failure(1, "first"));
    registry.set_reload_error(failure(2, "other"));
    registry.set_reload_error(failure(1, "second"));
    let errors = registry.reload_errors();
    assert_eq!(errors.iter().map(|e| e.id).collect::<Vec<_>>(), vec![2, 1]);
    assert_eq!(errors[1].error.source, Some("second".to_string()));
    registry.clear_reload_error(2);
    assert_eq!(registry.reload_errors().len(), 1);
    registry.finish_reload(1, &format!("{ROOT}/x.obj"), Ok(Vec::new()), &Vec::new());
    assert!(registry.reload_errors().is_empty());
}

#[test]
fn load_steps_report_missing_entries_and_sources() {
    let mut registry = registry();
    let err = registry.load_parent(0x1234).unwrap_err();
    assert_eq!(err.source, Some("asset id 00000000-0000-0000-0000-000000001234".to_string()));
    registry.create("mem", MESH_TYPE, None, 9).unwrap();
    assert_eq!(registry.load_parent(9), Ok(None));
    assert_eq!(registry.load_source(9, MESH_TYPE, "mesh", &["obj"]), Ok(None));
    let err = registry.load_source(9, SCENE_TYPE, "scene", &["cxscene"]).unwrap_err();
    assert_eq!(err.asset_type, Some("scene"));
    let path = format!("{ROOT}/rock.obj");
    registry.build_asset_meta(ROOT, &path, &format!("{ROOT}/rock.meta"), &path, None, 10, &Vec::new());
    assert_eq!(registry.load_source(10, MESH_TYPE, "mesh", &["obj"]), Ok(Some(path.clone())));
    assert_eq!(registry.load_dyn_source(10), Ok(Some((path.clone(), MESH_TYPE))));
    assert_eq!(registry.resolve_path(&path, Some("mesh")), Ok(10));
    assert!(registry.reload_target(10).is_none());
    registry.finish_load(10, MESH_TYPE, Vec::new());
    assert_eq!(registry.reload_target(10), Some((path.clone(), MESH_TYPE)));
    assert_eq!(registry.persist_target(10), Some(path));
}

#[test]
fn paths_outside_every_root_cannot_be_recorded() {
    let mut registry = registry();
    let r = registry.try_build_asset_meta(ROOT, "other/x.obj", "other/x.meta", "/other/x.obj", None, 1, &Vec::new());
    assert!(r.is_none());
    let r = registry.try_build_asset_meta(ROOT, &format!("{ROOT}/noext"), &format!("{ROOT}/noext.meta"), "/a", None, 1, &Vec::new());
    assert!(r.is_none());
    assert!(registry.asset_meta_from_id(1).is_none());
}

#[test]
fn notifications_ignore_metadata_temporary_and_missing_files() {
    assert_eq!(notify_action(NotifyEventKind::Create, "/a/b.meta", true), NotifyAction::Ignore);
    assert_eq!(notify_action(NotifyEventKind::Modify, "/a/b.tmp", true), NotifyAction::Ignore);
    assert_eq!(notify_action(NotifyEventKind::Modify, "/a/b.obj", false), NotifyAction::Ignore);
    assert_eq!(notify_action(NotifyEventKind::Create, "/a/b", true), NotifyAction::Ignore);
    assert_eq!(notify_action(NotifyEventKind::Create, "/a/b.obj", true), NotifyAction::BuildMeta);
    assert_eq!(notify_action(NotifyEventKind::Modify, "/a/b.obj", true), NotifyAction::MarkDirty);
    assert_eq!(notify_action(NotifyEventKind::Other, "/a/b.obj", true), NotifyAction::Ignore);
}

#[test]
fn roots_paths_and_loaded_values() {
    let mut registry = AssetRegistry::new(vec![ROOT.to_string(), "/opt/shared-assets".to_string()]);
    registry.register_asset_type(MESH_TYPE, &["obj"]);
    assert_eq!(registry.root_path(), ROOT);
    assert_eq!(registry.asset_paths().len(), 2);
    let shared = "/opt/shared-assets/meshes/cube.obj";
    registry.build_asset_meta("/opt/shared-assets", shared, "/opt/shared-assets/meshes/cube.meta", shared, None, 0x900, &Vec::new());
    assert_eq!(registry.asset_meta_from_path(shared).map(|m| m.id), Some(0x900));
    assert_eq!(registry.asset_name_from_path(shared), Some("meshes/cube".to_string()));
    assert_eq!(registry.asset_name_from_path("/nowhere/x.obj"), None);
    assert_eq!(registry.asset_type_uuid_from_ext("obj"), Some(MESH_TYPE));
    assert_eq!(registry.asset_type_uuid_from_ext("png"), None);
    assert!(!registry.is_loaded_as(0x900, MESH_TYPE));
    registry.finish_load(0x900, MESH_TYPE, Vec::new());
    assert!(registry.is_loaded_as(0x900, MESH_TYPE));
    assert!(!registry.is_loaded_as(0x900, SCENE_TYPE));
}
