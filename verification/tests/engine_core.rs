use calyx::bind_groups::{bind_group_entries, bind_group_sources, BindingSource, GlobalLayout};
use calyx::material::BindGroupEntry;
use calyx::animation::{
    blend_discrete, condition_outcome, particle_seed, xorshift_step, BoolCondition,
    ConditionOutcome, Counter, DiscreteCondition, DiscreteParameter, IntCondition,
};
use calyx::digest::{read_only_ref_type_uuid, ref_type_uuid, wrapper_type_uuid};
use calyx::errors::{log_target_enabled, AssetError, AssetErrorKind, EngineError, LogRegistry, Logger};
use calyx::json_refs::{referenced_asset_ids, references_assets, sorted_unique, JsonValue};
use calyx::list_edit::{drop_index, move_item, remove_selected, List, ListButtons, ListItemContext, ListState};
use calyx::material::{
    find_closest_texture_in_group, find_variable, is_color_variable, order_slots, variable_indices,
    BindingType, ShaderValueKind, ShaderVariableSlot, SlotOrder,
};
use calyx::shader_reflect::{
    material_variables, GlobalBinding, ImageDimension, Scalar, ScalarKind, ShaderType,
    StructMember, VectorSize,
};
use calyx::text::{contains_text, decimal_string, hex_lower, same_text, uuid_string};

const DUMMY_RESOURCE: u128 = 0xf13a97c5_8d80_42d0_ae95_f4f0bd42d390;

#[test]
fn wrapper_type_uuids_are_stable_and_distinct() {
    assert_ne!(DUMMY_RESOURCE, ref_type_uuid(DUMMY_RESOURCE));
    assert_ne!(ref_type_uuid(DUMMY_RESOURCE), read_only_ref_type_uuid(DUMMY_RESOURCE));
    assert_eq!(ref_type_uuid(DUMMY_RESOURCE), ref_type_uuid(DUMMY_RESOURCE));
    assert_eq!(ref_type_uuid(DUMMY_RESOURCE), 0xeb009b86_12c6_e800_84a6_d17b_27bc_1270);
}

#[test]
fn wrapper_uuid_is_the_digest_prefix() {
    let wrapper = [0u8; 16];
    assert_eq!(wrapper_type_uuid(&wrapper, 0), 0xde8a847b_ff8c_343d_69b8_53a2_15e6_ee77);
}

#[test]
fn color_named_vec4_variables_use_color_editor_values() {
    assert!(is_color_variable("base_color"));
    assert!(is_color_variable("albedo"));
    assert!(!is_color_variable("clip_plane"));
}

#[test]
fn color_names_are_matched_without_case() {
    assert!(is_color_variable("Color"));
    assert!(is_color_variable("Tint Color"));
    assert!(is_color_variable("groundAlbedoMap"));
    assert!(!is_color_variable("colorful"));
}

#[test]
fn text_helpers_spell_numbers_and_uuids() {
    assert_eq!(decimal_string(0), "0");
    assert_eq!(decimal_string(1234), "1234");
    assert_eq!(hex_lower(&[0x00, 0xab, 0x10]), "00ab10");
    assert_eq!(uuid_string(0x1234), "00000000-0000-0000-0000-000000001234");
    assert_eq!(
        uuid_string(0x8ba4ccec_85ab_45f5_b4ee_2e803ef548a2),
        "8ba4ccec-85ab-45f5-b4ee-2e803ef548a2"
    );
    assert!(same_text("abc", "abc"));
    assert!(!same_text("abc", "abd"));
    assert!(contains_text("hello world", "lo w"));
    assert!(contains_text("abc", ""));
    assert!(!contains_text("ab", "abc"));
}

#[test]
fn asset_error_text_lists_its_context() {
    let e = AssetError::new(AssetErrorKind::NotFound)
        .with_type("mesh")
        .with_path("meshes/cube.obj")
        .with_source("missing".to_string());
    assert_eq!(e.to_display_string(), "asset not found for mesh at meshes/cube.obj: missing");
    assert_eq!(AssetError::load_error().to_display_string(), "asset load failed");
    assert_eq!(AssetError::type_mismatch().kind, AssetErrorKind::TypeMismatch);
    assert_eq!(EngineError::new("boom").to_display_string(), "boom");
}

#[test]
fn log_registry_drains_in_order_and_filters_targets() {
    let mut registry = LogRegistry::new();
    let logger = Logger;
    logger.log(&mut registry, "calyx::assets", "INFO", "loaded");
    logger.log(&mut registry, "wgpu_core::device", "WARN", "noisy");
    logger.log(&mut registry, "editor", "ERROR", "failed");
    assert_eq!(registry.drain_logs(), vec!["INFO: loaded".to_string(), "ERROR: failed".to_string()]);
    assert!(registry.drain_logs().is_empty());
    assert!(!log_target_enabled("egui::context"));
    assert!(!log_target_enabled("naga"));
    assert!(!log_target_enabled("eframe"));
    assert!(log_target_enabled("calyx"));
    assert!(logger.enabled("my_game"));
}

#[test]
fn json_references_are_sorted_and_deduplicated() {
    let a = "d2863902-8a4c-8f5b-2fef-8df1e3cf693e";
    let b = "00000000-0000-0000-0000-000000000001";
    let known = vec![0xd2863902_8a4c_8f5b_2fef_8df1e3cf693e, 1];
    let doc = JsonValue::Object(vec![
        ("shader".to_string(), JsonValue::Text(a.to_string())),
        (
            "variables".to_string(),
            JsonValue::Array(vec![
                JsonValue::Text(b.to_string()),
                JsonValue::Text("not an id".to_string()),
                JsonValue::Text("00000000-0000-0000-0000-000000000002".to_string()),
                JsonValue::Text(a.to_string()),
                JsonValue::Other,
            ]),
        ),
    ]);
    assert_eq!(referenced_asset_ids(&known, &doc), vec![1, 0xd2863902_8a4c_8f5b_2fef_8df1e3cf693e]);
    assert_eq!(sorted_unique(&vec![5, 1, 5, 3, 1]), vec![1, 3, 5]);
    assert!(references_assets("cxmat"));
    assert!(references_assets("cxprefab"));
    assert!(!references_assets("png"));
}

#[test]
fn list_moves_and_removals() {
    let mut items = vec!['a', 'b', 'c', 'd'];
    move_item::<u8, Vec<char>>(&mut items, 0, 3, 0);
    assert_eq!(items, vec!['b', 'c', 'a', 'd']);
    move_item::<u8, Vec<char>>(&mut items, 2, 0, 0);
    assert_eq!(items, vec!['a', 'b', 'c', 'd']);
    move_item::<u8, Vec<char>>(&mut items, 3, 0, 0);
    assert_eq!(items, vec!['d', 'a', 'b', 'c']);

    let mut state = ListState::default().clicked(1);
    assert_eq!(state.selected, Some(1));
    remove_selected::<u8, Vec<char>>(&mut items, &mut state);
    assert_eq!(items, vec!['d', 'b', 'c']);
    assert_eq!(state.selected, None);
    assert_eq!(ListState { selected: Some(2) }.clicked(2).selected, None);

    assert_eq!(drop_index(usize::MAX, 5, 3), 3);
    assert_eq!(drop_index(1, 0, 5), 2);
    assert_eq!(drop_index(usize::MAX, 1, 5), 1);
}

#[test]
fn list_options_and_header() {
    let list = List::new("Layers".to_string());
    assert!(list.default_open && list.show_count && list.indented && list.drag_and_drop);
    assert!(!list.header && !list.interactive);
    assert_eq!(list.header_text(3), "Layers (3)");
    let list = list.show_count(false).header(true).interactive(true).indented(false).default_open(false).drag_and_drop(false);
    assert_eq!(list.header_text(3), "Layers");
    assert!(list.header && list.interactive && !list.indented && !list.default_open && !list.drag_and_drop);

    let buttons: ListButtons<(), ()> = ListButtons::new();
    let buttons = buttons.remove_enabled(false).on_click_add(1u8).on_click_remove(2u16);
    assert!(!buttons.remove_enabled);
    assert_eq!(buttons.on_click_add, Some(1u8));
    assert_eq!(buttons.on_click_remove, Some(2u16));
    let ctx = ListItemContext::new("x", 4, ListState { selected: Some(4) });
    assert!(ctx.selected);
    assert_eq!(ctx.index, 4);
}

#[test]
fn conditions_compare_parameters_of_their_kind() {
    assert!(IntCondition::Less(3).satisfied_by(2));
    assert!(!IntCondition::Greater(3).satisfied_by(3));
    assert!(IntCondition::NotEqual(3).satisfied_by(4));
    assert!(BoolCondition::False.satisfied_by(false));
    assert_eq!(
        condition_outcome(Some(DiscreteParameter::Int(5)), DiscreteCondition::Int(IntCondition::Equal(5))),
        ConditionOutcome::Decided(true)
    );
    assert_eq!(condition_outcome(None, DiscreteCondition::Trigger), ConditionOutcome::Decided(false));
    assert_eq!(
        condition_outcome(Some(DiscreteParameter::Trigger), DiscreteCondition::Unset),
        ConditionOutcome::Decided(false)
    );
    assert_eq!(
        condition_outcome(Some(DiscreteParameter::Float), DiscreteCondition::Float),
        ConditionOutcome::FloatComparison
    );
    assert_eq!(
        condition_outcome(Some(DiscreteParameter::Bool(true)), DiscreteCondition::Int(IntCondition::Equal(1))),
        ConditionOutcome::Decided(false)
    );
    assert_eq!(
        blend_discrete(DiscreteParameter::Bool(false), DiscreteParameter::Bool(true), true),
        Some(DiscreteParameter::Bool(true))
    );
    assert_eq!(blend_discrete(DiscreteParameter::Int(1), DiscreteParameter::Int(2), true), None);
    assert_eq!(
        blend_discrete(DiscreteParameter::Int(1), DiscreteParameter::Trigger, false),
        Some(DiscreteParameter::Trigger)
    );
}

#[test]
fn counter_and_random_state() {
    let mut counter = Counter::new();
    assert_eq!(counter.next(), 0);
    assert_eq!(counter.next(), 1);
    assert_eq!(xorshift_step(1), 1_082_269_761);
    assert_eq!(particle_seed(0x1_0000_0000_0000_0005), 0x9e37_79b9_7f4a_7c10);
}

fn slot(group: u32, binding: u32, offset: Option<u32>, kind: ShaderValueKind) -> ShaderVariableSlot {
    ShaderVariableSlot { group, binding, offset, kind }
}

#[test]
fn material_variables_are_found_by_group_and_binding() {
    let vars = vec![
        slot(3, 0, Some(0), ShaderValueKind::Color),
        slot(3, 0, Some(16), ShaderValueKind::Float),
        slot(3, 2, None, ShaderValueKind::Texture2D),
        slot(3, 5, None, ShaderValueKind::Texture2D),
        slot(3, 4, None, ShaderValueKind::Sampler),
    ];
    let indices = variable_indices(&vars);
    assert_eq!(find_variable(&vars, &indices, 3, 2), Some(2));
    assert_eq!(find_variable(&vars, &indices, 3, 9), None);
    assert_eq!(find_variable(&vars, &Vec::new(), 3, 4), Some(4));
    assert_eq!(find_closest_texture_in_group(&vars, 3, 4), Some(3));
    assert_eq!(find_closest_texture_in_group(&vars, 3, 1), Some(2));
    assert_eq!(find_closest_texture_in_group(&vars, 4, 1), None);
    assert_eq!(order_slots(&vars[0], &vars[1]), SlotOrder::Less);
    assert_eq!(order_slots(&vars[1], &vars[1]), SlotOrder::Equal);
    assert_eq!(order_slots(&vars[3], &vars[2]), SlotOrder::Greater);
    assert_eq!(ShaderValueKind::Sampler.binding_type(), BindingType::Sampler);
    assert_eq!(ShaderValueKind::Color.binding_type(), BindingType::Buffer);
}

#[test]
fn reflection_reads_material_groups_only() {
    let float = Scalar { kind: ScalarKind::Float, width: 4 };
    let globals = vec![
        GlobalBinding { group: 0, binding: 0, name: Some("camera".to_string()), ty: ShaderType::Sampler },
        GlobalBinding {
            group: 3,
            binding: 0,
            name: Some("material".to_string()),
            ty: ShaderType::Struct(vec![
                StructMember {
                    name: Some("base_color".to_string()),
                    offset: 0,
                    ty: ShaderType::Vector { size: VectorSize::Quad, scalar: float },
                },
                StructMember {
                    name: Some("roughness".to_string()),
                    offset: 16,
                    ty: ShaderType::Scalar(float),
                },
            ]),
        },
        GlobalBinding {
            group: 3,
            binding: 1,
            name: Some("albedo_map".to_string()),
            ty: ShaderType::Image { dim: ImageDimension::D2, arrayed: false },
        },
        GlobalBinding { group: 3, binding: 2, name: None, ty: ShaderType::Sampler },
    ];
    let vars = material_variables(&globals);
    let summary: Vec<(u32, u32, Option<u32>, String, Option<u32>, ShaderValueKind)> = vars
        .iter()
        .map(|d| (d.group, d.binding, d.offset, d.name.clone(), d.span, d.kind))
        .collect();
    assert_eq!(
        summary,
        vec![
            (3, 0, Some(0), "base_color".to_string(), Some(16), ShaderValueKind::Color),
            (3, 0, Some(16), "roughness".to_string(), Some(4), ShaderValueKind::Float),
            (3, 1, None, "albedo_map".to_string(), None, ShaderValueKind::Texture2D),
            (3, 2, None, String::new(), None, ShaderValueKind::Sampler),
        ]
    );
}

#[test]
fn bind_group_table_lists_used_places_in_order() {
    let vars = vec![
        slot(4, 1, None, ShaderValueKind::Sampler),
        slot(3, 2, None, ShaderValueKind::Texture2D),
        slot(3, 0, Some(0), ShaderValueKind::Color),
        slot(3, 0, Some(16), ShaderValueKind::Float),
        slot(3, 3, None, ShaderValueKind::Sampler),
    ];
    let globals = vec![
        GlobalLayout { group: 3, binding: 0, struct_span: Some(32) },
        GlobalLayout { group: 3, binding: 2, struct_span: None },
        GlobalLayout { group: 9, binding: 9, struct_span: Some(4) },
    ];
    let entries = bind_group_entries(&vars, &globals);
    assert_eq!(
        entries,
        vec![
            (3, 0, BindGroupEntry { ty: BindingType::Buffer, size: Some(32) }),
            (3, 2, BindGroupEntry { ty: BindingType::Texture, size: None }),
            (3, 3, BindGroupEntry { ty: BindingType::Sampler, size: None }),
            (4, 1, BindGroupEntry { ty: BindingType::Sampler, size: None }),
        ]
    );
    let indices = variable_indices(&vars);
    assert_eq!(
        bind_group_sources(&entries, &vars, &indices),
        vec![
            (3, 0, BindingSource::Buffer { size: Some(32) }),
            (3, 2, BindingSource::Texture { variable: 1 }),
            (3, 3, BindingSource::Sampler { variable: Some(1) }),
            (4, 1, BindingSource::Sampler { variable: None }),
        ]
    );
    let orphan = vec![(5, 0, BindGroupEntry { ty: BindingType::Texture, size: None })];
    assert!(bind_group_sources(&orphan, &vars, &indices).is_empty());
}

#[test]
fn lerp_bool_threshold() {
    let f = DiscreteParameter::Bool(false);
    let t = DiscreteParameter::Bool(true);
    let weight: f32 = 0.4;
    let Some(DiscreteParameter::Bool(v)) = blend_discrete(f, t, weight >= 0.5) else {
        panic!()
    };
    assert!(!v);
    let weight: f32 = 0.6;
    let Some(DiscreteParameter::Bool(v)) = blend_discrete(f, t, weight >= 0.5) else {
        panic!()
    };
    assert!(v);
}
