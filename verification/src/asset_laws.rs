use vstd::prelude::*;
use crate::asset_registry::{
    AssetRegistry, AssetMetaView, AssetReloadError, in_memory_decision, in_memory_meta, sub_meta,
    name_key, sub_asset_name_spec, linked_meta, reload_due, without_error_of, without_dependent,
    with_dependent, updated_dependencies, notify_action_spec, NotifyAction, NotifyEventKind,
};
use crate::asset_paths::path_extension_result;
use crate::errors::AssetErrorKind;

verus! {

/// An in-memory asset recorded under a name is found by that name, and its
/// entry carries the name and the type it was recorded with.
pub proof fn law_recorded_name_resolves(
    prev: AssetRegistry,
    next: AssetRegistry,
    name: Seq<char>,
    id: u128,
    type_uuid: u128,
    display_name: Seq<char>,
)
    requires
        prev.wf(),
        next.names() == prev.names().insert(name_key(name), id),
        next.metas() == prev.metas().insert(
            id,
            in_memory_meta(prev.metas(), id, name, type_uuid, display_name),
        ),
    ensures
        next.names().contains_key(name_key(name)),
        next.names()[name_key(name)] == id,
        next.metas().contains_key(id),
        next.metas()[id].name == name,
        next.metas()[id].type_uuid == type_uuid,
{
}

/// The name of an asset file cannot be taken by an in-memory asset.
pub proof fn law_file_asset_name_is_refused(
    reg: AssetRegistry,
    name: Seq<char>,
    type_uuid: u128,
    name_id: u128,
)
    requires
        reg.wf(),
        reg.names().contains_key(name_key(name)),
        reg.metas().contains_key(reg.names()[name_key(name)]),
        reg.metas()[reg.names()[name_key(name)]].path is Some,
    ensures
        in_memory_decision(
            reg.names(),
            reg.metas(),
            reg.cached(),
            name_key(name),
            type_uuid,
            name_id,
        ) == Err::<u128, AssetErrorKind>(AssetErrorKind::AlreadyExists),
{
}

/// Creating or updating the same in-memory asset twice succeeds both times
/// with the same id, and the second time finds the value of the first.
/// (Left out: a new name whose derived id already belongs to an asset file
/// or a sub-asset, which the second call refuses.)
pub proof fn law_create_or_update_is_repeatable(
    prev: AssetRegistry,
    next: AssetRegistry,
    name: Seq<char>,
    type_uuid: u128,
    name_id: u128,
    id: u128,
    display_name: Seq<char>,
)
    requires
        prev.wf(),
        in_memory_decision(
            prev.names(),
            prev.metas(),
            prev.cached(),
            name_key(name),
            type_uuid,
            name_id,
        ) == Ok::<u128, AssetErrorKind>(id),
        !(prev.metas().contains_key(id) && (prev.metas()[id].path is Some
            || prev.metas()[id].parent is Some)),
        next.metas() == prev.metas().insert(
            id,
            in_memory_meta(prev.metas(), id, name, type_uuid, display_name),
        ),
        next.names() == prev.names().insert(name_key(name), id),
        next.cached() == prev.cached().insert(id, type_uuid),
    ensures
        in_memory_decision(
            next.names(),
            next.metas(),
            next.cached(),
            name_key(name),
            type_uuid,
            name_id,
        ) == Ok::<u128, AssetErrorKind>(id),
        next.cached().contains_key(id),
{
}

/// A recorded sub-asset is found under its canonical name (the parent's
/// name joined with its local name), keeps its local name, and names its
/// parent.
pub proof fn law_sub_asset_found_by_canonical_name(
    prev: AssetRegistry,
    next: AssetRegistry,
    parent_id: u128,
    parent_name: Seq<char>,
    local_name: Seq<char>,
    id: u128,
    type_uuid: u128,
    display_name: Seq<char>,
)
    requires
        prev.wf(),
        next.metas() == prev.metas().insert(
            id,
            sub_meta(id, local_name, type_uuid, display_name, parent_id),
        ),
        next.names() == prev.names().insert(
            name_key(sub_asset_name_spec(parent_name, local_name)),
            id,
        ),
    ensures
        next.names()[name_key(sub_asset_name_spec(parent_name, local_name))] == id,
        next.metas()[id].name == local_name,
        next.metas()[id].parent == Some(parent_id),
        next.metas()[id].path is None,
{
}

/// After sub-assets are attached to an asset, each of them that has an entry
/// names that asset as its parent, the asset lists exactly them as its
/// children, and no other entry changes.
pub proof fn law_attached_sub_assets_point_to_parent(
    prev: AssetRegistry,
    next: AssetRegistry,
    id: u128,
    sub_assets: Seq<u128>,
)
    requires
        prev.wf(),
        next.metas() == Map::new(
            |k: u128| prev.metas().contains_key(k),
            |k: u128| linked_meta(prev.metas()[k], k, id, sub_assets),
        ),
    ensures
        forall|k: u128|
            #![trigger next.metas()[k]]
            sub_assets.contains(k) && prev.metas().contains_key(k) ==> next.metas()[k].parent == Some(
                id,
            ),
        prev.metas().contains_key(id) ==> next.metas()[id].children == sub_assets,
        forall|k: u128|
            #![trigger next.metas()[k]]
            prev.metas().contains_key(k) && !sub_assets.contains(k) && k != id ==> next.metas()[k]
                == prev.metas()[k],
        next.metas().dom() == prev.metas().dom(),
{
    assert(next.metas().dom() =~= prev.metas().dom());
}

/// Taking the due reloads leaves no marked asset that is due, and takes only
/// marked assets.
pub proof fn law_due_reloads_leave_nothing_due(
    prev: AssetRegistry,
    next: AssetRegistry,
    now: u64,
    taken: Seq<u128>,
)
    requires
        prev.wf(),
        forall|id: u128| #[trigger]
            taken.contains(id) == (prev.dirty().contains_key(id) && reload_due(
                prev.dirty()[id],
                now,
            )),
        next.dirty() == prev.dirty().remove_keys(taken.to_set()),
    ensures
        forall|id: u128| #[trigger] next.dirty().contains_key(id) ==> !reload_due(next.dirty()[id], now),
        forall|id: u128| #[trigger] taken.contains(id) ==> prev.dirty().contains_key(id),
{
    assert forall|id: u128| #[trigger] next.dirty().contains_key(id) implies !reload_due(
        next.dirty()[id],
        now,
    ) by {
        if reload_due(next.dirty()[id], now) {
            assert(taken.contains(id));
            assert(taken.to_set().contains(id));
        }
    }
}

/// An asset marked at `marked` is due for reload exactly from the debounce
/// time on: before that a reload waits, and from then on it is taken.
pub proof fn law_reload_waits_for_debounce(marked: u64, now: u64)
    ensures
        now < marked + 75 ==> !reload_due(marked, now),
        now >= marked + 75 ==> reload_due(marked, now),
{
}

/// At most one reload failure is kept per asset: after a failure is
/// recorded, it is the newest entry and the only one of its asset.
pub proof fn law_one_reload_failure_per_asset(
    prev: AssetRegistry,
    next: AssetRegistry,
    failure: AssetReloadError,
)
    requires
        prev.wf(),
        next.wf(),
        next.reload_error_list() == without_error_of(prev.reload_error_list(), failure.id).push(failure),
    ensures
        next.reload_error_list().last() == failure,
        forall|i: int|
            0 <= i < next.reload_error_list().len() - 1 ==> #[trigger] next.reload_error_list()[i].id
                != failure.id,
{
    let l = next.reload_error_list();
    next.lemma_reload_errors_unique();
    assert forall|i: int| 0 <= i < l.len() - 1 implies #[trigger] l[i].id != failure.id by {
        assert(l[i].id != l[l.len() - 1].id);
    }
}

/// After the dependencies of a file that is not a shader source are
/// renewed, the asset depends on no file, and no dependency set is empty.
pub proof fn law_non_shader_depends_on_nothing(
    prev: AssetRegistry,
    next: AssetRegistry,
    id: u128,
    path: Seq<char>,
    includes: Seq<Seq<char>>,
)
    requires
        prev.wf(),
        next.dependencies() == updated_dependencies(prev.dependencies(), id, path, includes),
        path_extension_result(path) != Some("wgsl"@),
    ensures
        forall|p: Seq<char>| #[trigger] next.dependencies().contains_key(p) ==> !next.dependencies()[p].contains(id),
        forall|p: Seq<char>| #[trigger] next.dependencies().contains_key(p) ==> next.dependencies()[p] != Set::<u128>::empty(),
{
}

/// After the dependencies of a shader source are renewed, it depends on
/// exactly the files it includes.
pub proof fn law_shader_depends_on_its_includes(
    prev: AssetRegistry,
    next: AssetRegistry,
    id: u128,
    path: Seq<char>,
    includes: Seq<Seq<char>>,
)
    requires
        prev.wf(),
        next.dependencies() == updated_dependencies(prev.dependencies(), id, path, includes),
        path_extension_result(path) == Some("wgsl"@),
    ensures
        forall|p: Seq<char>| #[trigger] includes.contains(p) ==> next.dependencies().contains_key(p)
            && next.dependencies()[p].contains(id),
        forall|p: Seq<char>| #[trigger] next.dependencies().contains_key(p) && next.dependencies()[p].contains(id) ==> includes.contains(p),
{
}

/// Notifications about metadata and temporary files never ask for work.
pub proof fn law_meta_and_temp_files_are_ignored(kind: NotifyEventKind, path: Seq<char>, is_file: bool)
    requires
        path_extension_result(path) == Some("meta"@) || path_extension_result(path) == Some("tmp"@),
    ensures
        notify_action_spec(kind, path, is_file) == NotifyAction::Ignore,
{
}

} // verus!
