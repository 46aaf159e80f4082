use vstd::prelude::*;
use crate::asset_paths::{
    PathKey, normalize_relative, push_relative, normalized_relative, relative_push, path_segments,
    path_extension, path_extension_result, common_path_of, common_path_result, paths_equal,
    std_paths_equal, path_relative_to, relative_to_result, with_relative_extension,
    relative_with_extension, path_file_stem, path_file_stem_result,
};
use crate::errors::{AssetError, AssetErrorKind};
use crate::table::{
    TableKey, table_unique, table_map, table_find, table_get, table_upsert, table_remove,
    lemma_table_map_at, lemma_table_empty,
};
use crate::text::{
    uuid_string, uuid_text, string_push_str, same_text, chars_of, string_from_chars, contains_text, to_lowercase, lowercase,
    occurs_in,
};

verus! {

/// Metadata of one asset entry.
#[derive(Debug)]
pub struct AssetMeta {
    /// Stable asset id.
    pub id: u128,
    /// Asset name relative to an asset root (for a sub-asset: its local name).
    pub name: String,
    /// User-facing display name.
    pub display_name: String,
    /// Asset type id resolved from the file extension.
    pub type_uuid: u128,
    /// The owning asset, for a sub-asset.
    pub parent: Option<u128>,
    /// The sub-assets this entry owns.
    pub children: Vec<u128>,
    /// Absolute source path of the asset file.
    pub path: Option<String>,
}

/// The plain value of an `AssetMeta`.
pub ghost struct AssetMetaView {
    pub id: u128,
    pub name: Seq<char>,
    pub display_name: Seq<char>,
    pub type_uuid: u128,
    pub parent: Option<u128>,
    pub children: Seq<u128>,
    pub path: Option<Seq<char>>,
}

/// The text of an optional string.
pub open spec fn opt_text(o: Option<String>) -> Option<Seq<char>> {
    match o {
        Some(s) => Some(s@),
        None => None,
    }
}

impl View for AssetMeta {
    type V = AssetMetaView;

    open spec fn view(&self) -> AssetMetaView {
        AssetMetaView {
            id: self.id,
            name: self.name@,
            display_name: self.display_name@,
            type_uuid: self.type_uuid,
            parent: self.parent,
            children: self.children@,
            path: opt_text(self.path),
        }
    }
}

/// A copy of the ids in `v`.
pub fn copy_ids(v: &Vec<u128>) -> (r: Vec<u128>)
    ensures
        r@ == v@,
{
    let mut r: Vec<u128> = Vec::new();
    let mut i: usize = 0;
    while i < v.len()
        invariant
            i <= v@.len(),
            r@ == v@.take(i as int),
        decreases v@.len() - i,
    {
        r.push(v[i]);
        i = i + 1;
        proof {
            assert(r@ =~= v@.take(i as int));
        }
    }
    proof {
        assert(v@.take(v@.len() as int) =~= v@);
    }
    r
}

/// A copy of an optional string.
pub fn copy_opt_string(o: &Option<String>) -> (r: Option<String>)
    ensures
        opt_text(r) == opt_text(*o),
{
    match o {
        Some(s) => Some(s.clone()),
        None => None,
    }
}

impl AssetMeta {
    /// A copy of this entry.
    pub fn duplicate(&self) -> (r: AssetMeta)
        ensures
            r@ == self@,
    {
        AssetMeta {
            id: self.id,
            name: self.name.clone(),
            display_name: self.display_name.clone(),
            type_uuid: self.type_uuid,
            parent: self.parent,
            children: copy_ids(&self.children),
            path: copy_opt_string(&self.path),
        }
    }
}

/// The metadata stored beside one asset file: its own entry and those of its
/// sub-assets.
#[derive(Debug)]
pub struct AssetMetaData {
    /// The asset's own entry.
    pub main: AssetMeta,
    /// The entries of its sub-assets.
    pub inner: Vec<AssetMeta>,
}

/// A failed hot reload of a loaded asset.
#[derive(Debug)]
pub struct AssetReloadError {
    /// The asset that failed to reload.
    pub id: u128,
    /// The source path whose change triggered the reload.
    pub path: String,
    /// What went wrong.
    pub error: AssetError,
}

/// The texts of a sequence of strings.
pub open spec fn texts(v: Seq<String>) -> Seq<Seq<char>> {
    Seq::new(v.len(), |i: int| v[i]@)
}

/// The key under which an asset name is looked up: the components of its
/// normalized form.
pub open spec fn name_key(name: Seq<char>) -> Seq<Seq<char>> {
    path_segments(normalized_relative(name))
}

/// The canonical name of the sub-asset `local` of the asset named `parent`.
pub open spec fn sub_asset_name_spec(parent: Seq<char>, local: Seq<char>) -> Seq<char> {
    normalized_relative(relative_push(normalized_relative(parent), local))
}

/// The text naming an asset in an error: ``asset name `<name>` ``.
pub open spec fn quoted_name(name: Seq<char>) -> Seq<char> {
    "asset name `"@ + name + "`"@
}

/// An error of `kind` whose source names `name`.
pub open spec fn name_error(e: AssetError, kind: AssetErrorKind, name: Seq<char>) -> bool {
    &&& e.kind == kind
    &&& e.path is None
    &&& e.asset_type is None
    &&& e.source matches Some(s) && s@ == quoted_name(name)
}

/// A type-mismatch error for the type `asset_type` whose source names `name`.
pub open spec fn mismatch_error(e: AssetError, asset_type: &'static str, name: Seq<char>) -> bool {
    &&& e.kind == AssetErrorKind::TypeMismatch
    &&& e.path is None
    &&& e.asset_type == Some(asset_type)
    &&& e.source matches Some(s) && s@ == quoted_name(name)
}

/// The display name of a new entry: the label of its type when the type has
/// one, else `fallback`.
pub open spec fn display_name_spec(type_label: Option<&str>, fallback: Seq<char>) -> Seq<char> {
    match type_label {
        Some(l) => l@,
        None => fallback,
    }
}

/// The entry that an in-memory asset `id` gets: the given name, type and
/// display name, while parent, children and path stay those of the entry it
/// replaces, if any.
pub open spec fn in_memory_meta(
    metas: Map<u128, AssetMetaView>,
    id: u128,
    name: Seq<char>,
    type_uuid: u128,
    display_name: Seq<char>,
) -> AssetMetaView {
    let old = metas[id];
    AssetMetaView {
        id,
        name,
        display_name,
        type_uuid,
        parent: if metas.contains_key(id) { old.parent } else { None },
        children: if metas.contains_key(id) { old.children } else { Seq::empty() },
        path: if metas.contains_key(id) { old.path } else { None },
    }
}

/// The entry of a sub-asset: its local name, its parent, no children and no
/// path.
pub open spec fn sub_meta(
    id: u128,
    local_name: Seq<char>,
    type_uuid: u128,
    display_name: Seq<char>,
    parent_id: u128,
) -> AssetMetaView {
    AssetMetaView {
        id,
        name: local_name,
        display_name,
        type_uuid,
        parent: Some(parent_id),
        children: Seq::empty(),
        path: None,
    }
}

/// The check of a cached value: a value of another type is a mismatch.
pub open spec fn cache_check(cached: Map<u128, u128>, id: u128, type_uuid: u128) -> Result<
    u128,
    AssetErrorKind,
> {
    if cached.contains_key(id) && cached[id] != type_uuid {
        Err(AssetErrorKind::TypeMismatch)
    } else {
        Ok(id)
    }
}

/// What `create_or_update` decides for the name key `key`: the id that it
/// uses, or the kind of error. A name that belongs to an asset file or to a
/// sub-asset cannot be taken, nor one of another type.
pub open spec fn in_memory_decision(
    names: Map<Seq<Seq<char>>, u128>,
    metas: Map<u128, AssetMetaView>,
    cached: Map<u128, u128>,
    key: Seq<Seq<char>>,
    type_uuid: u128,
    name_id: u128,
) -> Result<u128, AssetErrorKind> {
    if names.contains_key(key) {
        let id = names[key];
        let m = metas[id];
        if metas.contains_key(id) && (m.path is Some || m.parent is Some) {
            Err(AssetErrorKind::AlreadyExists)
        } else if metas.contains_key(id) && m.type_uuid != type_uuid {
            Err(AssetErrorKind::TypeMismatch)
        } else {
            cache_check(cached, id, type_uuid)
        }
    } else {
        cache_check(cached, name_id, type_uuid)
    }
}

/// What `create_or_update_sub_asset` decides for the canonical name key
/// `key`: the id that it uses, or the kind of error. The name cannot be taken
/// from an asset file, from a sub-asset of another parent or under another
/// local name, nor by another type.
pub open spec fn sub_asset_decision(
    names: Map<Seq<Seq<char>>, u128>,
    metas: Map<u128, AssetMetaView>,
    cached: Map<u128, u128>,
    key: Seq<Seq<char>>,
    type_uuid: u128,
    parent_id: u128,
    local_name: Seq<char>,
    canonical_id: u128,
) -> Result<u128, AssetErrorKind> {
    if names.contains_key(key) {
        let id = names[key];
        let m = metas[id];
        if metas.contains_key(id) && (m.path is Some || (m.parent matches Some(e) && e != parent_id)
            || m.name != local_name) {
            Err(AssetErrorKind::AlreadyExists)
        } else if metas.contains_key(id) && m.type_uuid != type_uuid {
            Err(AssetErrorKind::TypeMismatch)
        } else {
            cache_check(cached, id, type_uuid)
        }
    } else {
        cache_check(cached, canonical_id, type_uuid)
    }
}

/// The error that goes with a refused name: the kind that the decision gave,
/// with the type for a mismatch and the name as source.
pub open spec fn refusal_error(
    decision: Result<u128, AssetErrorKind>,
    e: AssetError,
    asset_type: &'static str,
    name: Seq<char>,
) -> bool {
    match decision {
        Err(AssetErrorKind::AlreadyExists) => name_error(e, AssetErrorKind::AlreadyExists, name),
        Err(AssetErrorKind::TypeMismatch) => mismatch_error(e, asset_type, name),
        _ => false,
    }
}

/// The local name of the sub-asset named `child` under the asset named
/// `parent`: with both normalized, what follows the parent's name and a `/`
/// when the child's name starts so, else the child's whole name.
pub open spec fn local_sub_asset_name_spec(parent: Seq<char>, child: Seq<char>) -> Seq<char> {
    let p = normalized_relative(parent);
    let c = normalized_relative(child);
    if (p + seq!['/']).is_prefix_of(c) {
        c.skip(p.len() + 1int)
    } else {
        c
    }
}

/// The entry `k` after the assets `sub_assets` were attached to the asset
/// `id`: each of them gets `id` as parent, and `id` gets them as children.
pub open spec fn linked_meta(m: AssetMetaView, k: u128, id: u128, sub_assets: Seq<u128>) -> AssetMetaView {
    let m1 = if sub_assets.contains(k) {
        AssetMetaView { parent: Some(id), ..m }
    } else {
        m
    };
    if k == id {
        AssetMetaView { children: sub_assets, ..m1 }
    } else {
        m1
    }
}

/// The entries of those of `ids` that have one, in order.
pub open spec fn present_metas(metas: Map<u128, AssetMetaView>, ids: Seq<u128>) -> Seq<AssetMetaView>
    decreases ids.len(),
{
    if ids.len() == 0 {
        Seq::empty()
    } else {
        let rest = present_metas(metas, ids.drop_last());
        if metas.contains_key(ids.last()) {
            rest.push(metas[ids.last()])
        } else {
            rest
        }
    }
}

/// The views of a sequence of entries.
pub open spec fn meta_views(v: Seq<AssetMeta>) -> Seq<AssetMetaView> {
    Seq::new(v.len(), |i: int| v[i]@)
}

/// The map from each of `exts` to `type_uuid`.
pub open spec fn extension_map(exts: Seq<&str>, type_uuid: u128) -> Map<Seq<char>, u128> {
    Map::new(|e: Seq<char>| exists|i: int| 0 <= i < exts.len() && #[trigger] exts[i]@ == e, |e: Seq<char>| type_uuid)
}

/// Whether `e` is one of `exts`.
pub open spec fn lists_text(exts: Seq<&str>, e: Seq<char>) -> bool {
    exists|i: int| 0 <= i < exts.len() && #[trigger] exts[i]@ == e
}

/// The extension of `path` as text, empty when it has none.
pub open spec fn extension_or_empty(path: Seq<char>) -> Seq<char> {
    match path_extension_result(path) {
        Some(e) => e,
        None => Seq::empty(),
    }
}

/// Whether the entry `m` is found by a search for the lower-case text `term`
/// among assets of type `asset_type` (any type for `None`): its lower-case
/// display name holds the term.
pub open spec fn search_match(m: AssetMetaView, term: Seq<char>, asset_type: Option<u128>) -> bool {
    (asset_type is None || asset_type == Some(m.type_uuid)) && occurs_in(term, lowercase(m.display_name))
}

/// The entries of `ids` that match a search, in order.
pub open spec fn search_hits(
    ids: Seq<u128>,
    metas: Map<u128, AssetMetaView>,
    term: Seq<char>,
    asset_type: Option<u128>,
) -> Seq<AssetMetaView>
    decreases ids.len(),
{
    if ids.len() == 0 {
        Seq::empty()
    } else {
        let rest = search_hits(ids.drop_last(), metas, term, asset_type);
        if search_match(metas[ids.last()], term, asset_type) {
            rest.push(metas[ids.last()])
        } else {
            rest
        }
    }
}

/// The time, in milliseconds, that a changed asset waits before it is
/// reloaded.
pub const HOT_RELOAD_DEBOUNCE_MS: u64 = 75;

/// Whether an asset marked at `marked` is due for a reload at `now`.
pub open spec fn reload_due(marked: u64, now: u64) -> bool {
    now >= marked && now - marked >= HOT_RELOAD_DEBOUNCE_MS
}

/// The reload failures without the one of `id`, if there is one.
pub open spec fn without_error_of(errors: Seq<AssetReloadError>, id: u128) -> Seq<AssetReloadError> {
    if exists|i: int| 0 <= i < errors.len() && #[trigger] errors[i].id == id {
        errors.remove(choose|i: int| 0 <= i < errors.len() && #[trigger] errors[i].id == id)
    } else {
        errors
    }
}

/// The dependencies after the asset `id` was taken out of every set: a set
/// left empty goes.
pub open spec fn without_dependent(deps: Map<Seq<char>, Set<u128>>, id: u128) -> Map<Seq<char>, Set<u128>> {
    Map::new(
        |p: Seq<char>| deps.contains_key(p) && deps[p].remove(id) != Set::<u128>::empty(),
        |p: Seq<char>| deps[p].remove(id),
    )
}

/// The dependencies after the asset `id` was added to the set of each of
/// `paths`.
pub open spec fn with_dependent(
    deps: Map<Seq<char>, Set<u128>>,
    paths: Seq<Seq<char>>,
    id: u128,
) -> Map<Seq<char>, Set<u128>> {
    Map::new(
        |p: Seq<char>| deps.contains_key(p) || paths.contains(p),
        |p: Seq<char>|
            if paths.contains(p) {
                (if deps.contains_key(p) {
                    deps[p]
                } else {
                    Set::<u128>::empty()
                }).insert(id)
            } else {
                deps[p]
            },
    )
}

/// What `update_asset_dependencies` makes of the dependencies: `id` leaves
/// every set, and a shader source (`.wgsl`) joins the sets of the files it
/// includes.
pub open spec fn updated_dependencies(
    deps: Map<Seq<char>, Set<u128>>,
    id: u128,
    path: Seq<char>,
    includes: Seq<Seq<char>>,
) -> Map<Seq<char>, Set<u128>> {
    if path_extension_result(path) == Some("wgsl"@) {
        with_dependent(without_dependent(deps, id), includes, id)
    } else {
        without_dependent(deps, id)
    }
}

/// `v` without `id`.
fn ids_without(v: &Vec<u128>, id: u128) -> (r: Vec<u128>)
    requires
        v@.no_duplicates(),
    ensures
        r@.no_duplicates(),
        r@.to_set() == v@.to_set().remove(id),
{
    let mut r: Vec<u128> = Vec::new();
    let mut i: usize = 0;
    while i < v.len()
        invariant
            i <= v@.len(),
            v@.no_duplicates(),
            r@.no_duplicates(),
            r@.to_set() == v@.take(i as int).to_set().remove(id),
        decreases v@.len() - i,
    {
        let x = v[i];
        proof {
            assert(v@.take(i + 1) =~= v@.take(i as int).push(x));
            v@.take(i as int).lemma_push_to_set_commute(x);
            if v@.take(i as int).contains(x) {
                let t = choose|t: int| 0 <= t < i && v@.take(i as int)[t] == x;
                assert(v@[t] == v@[i as int]);
            }
        }
        if x != id {
            let ghost before = r@;
            r.push(x);
            proof {
                before.lemma_push_to_set_commute(x);
                assert(!before.contains(x)) by {
                    if before.contains(x) {
                        assert(before.to_set().contains(x));
                    }
                }
                assert forall|a: int, b: int| 0 <= a < b < r@.len() implies r@[a] != r@[b] by {
                    if b == before.len() {
                        assert(before[a] == r@[a]);
                        assert(before.contains(r@[a]));
                    }
                }
                assert(r@.to_set() =~= v@.take(i + 1).to_set().remove(id));
            }
        } else {
            proof {
                assert(r@.to_set() =~= v@.take(i + 1).to_set().remove(id));
            }
        }
        i = i + 1;
    }
    proof {
        assert(v@.take(v@.len() as int) =~= v@);
    }
    r
}

/// `v` with `id` added when it is absent.
fn ids_with(v: &Vec<u128>, id: u128) -> (r: Vec<u128>)
    requires
        v@.no_duplicates(),
    ensures
        r@.no_duplicates(),
        r@.len() > 0,
        r@.to_set() == v@.to_set().insert(id),
{
    let mut r = copy_ids(v);
    let mut i: usize = 0;
    while i < v.len()
        invariant
            i <= v@.len(),
            r@ == v@,
            v@.no_duplicates(),
            forall|j: int| 0 <= j < i ==> v@[j] != id,
        decreases v@.len() - i,
    {
        if v[i] == id {
            proof {
                assert(v@.to_set().insert(id) =~= v@.to_set()) by {
                    assert(v@.contains(id));
                }
            }
            return r;
        }
        i = i + 1;
    }
    let ghost before = r@;
    r.push(id);
    proof {
        before.lemma_push_to_set_commute(id);
        assert forall|a: int, b: int| 0 <= a < b < r@.len() implies r@[a] != r@[b] by {
            if b == before.len() {
                assert(before[a] == r@[a]);
            }
        }
    }
    r
}

/// Whether the asset root `root` holds `path`: their common prefix is the
/// root itself.
pub open spec fn root_holds(root: Seq<char>, path: Seq<char>) -> bool {
    match common_path_result(root, path) {
        Some(c) => std_paths_equal(c, root),
        None => false,
    }
}

/// The name key of a path relative to an asset root: the relative path
/// without extension, compared by components.
pub open spec fn relative_name_key(relative: Seq<char>) -> Seq<Seq<char>> {
    path_segments(relative_with_extension(relative, Seq::empty()))
}

/// The id found for `path` under the root `root`.
pub open spec fn lookup_under(names: Map<Seq<Seq<char>>, u128>, root: Seq<char>, path: Seq<char>) -> Option<u128> {
    match relative_to_result(path, root) {
        Some(rel) => if names.contains_key(relative_name_key(rel)) {
            Some(names[relative_name_key(rel)])
        } else {
            None
        },
        None => None,
    }
}

/// The id of the asset at `path`: looked up under the first of `roots` that
/// holds the path.
pub open spec fn id_from_path(roots: Seq<Seq<char>>, names: Map<Seq<Seq<char>>, u128>, path: Seq<char>) -> Option<u128>
    decreases roots.len(),
{
    if roots.len() == 0 {
        None
    } else if root_holds(roots[0], path) {
        lookup_under(names, roots[0], path)
    } else {
        id_from_path(roots.skip(1), names, path)
    }
}

/// The ids of a sequence of entries.
pub open spec fn meta_ids(v: Seq<AssetMetaView>) -> Seq<u128> {
    Seq::new(v.len(), |i: int| v[i].id)
}

/// A sub-asset entry read from a metadata file, as the registry keeps it: its
/// name made local to the parent's, and the parent set.
pub open spec fn localized(c: AssetMetaView, main_name: Seq<char>, main_id: u128) -> AssetMetaView {
    AssetMetaView {
        name: local_sub_asset_name_spec(main_name, c.name),
        parent: Some(main_id),
        ..c
    }
}

/// The sub-asset entries of a metadata file, as the registry keeps them.
pub open spec fn localized_all(inner: Seq<AssetMetaView>, main_name: Seq<char>, main_id: u128) -> Seq<AssetMetaView> {
    Seq::new(inner.len(), |i: int| localized(inner[i], main_name, main_id))
}

/// `metas` with the entries `s` recorded in order.
pub open spec fn insert_entries(metas: Map<u128, AssetMetaView>, s: Seq<AssetMetaView>) -> Map<u128, AssetMetaView>
    decreases s.len(),
{
    if s.len() == 0 {
        metas
    } else {
        insert_entries(metas, s.drop_last()).insert(s.last().id, s.last())
    }
}

/// `names` with the canonical names of the sub-asset entries `s` of the
/// asset named `main_name` recorded in order.
pub open spec fn insert_sub_names(
    names: Map<Seq<Seq<char>>, u128>,
    s: Seq<AssetMetaView>,
    main_name: Seq<char>,
) -> Map<Seq<Seq<char>>, u128>
    decreases s.len(),
{
    if s.len() == 0 {
        names
    } else {
        insert_sub_names(names, s.drop_last(), main_name).insert(
            name_key(sub_asset_name_spec(main_name, s.last().name)),
            s.last().id,
        )
    }
}

/// The main entry of a metadata file, as the registry keeps it: its
/// children are the sub-asset entries.
pub open spec fn loaded_main(main: AssetMetaView, inner: Seq<AssetMetaView>) -> AssetMetaView {
    AssetMetaView { children: meta_ids(inner), ..main }
}

/// The key under which an asset file is named: its path relative to the
/// root, normalized, without extension.
pub open spec fn file_name_key(root: Seq<char>, path: Seq<char>) -> Seq<Seq<char>> {
    path_segments(
        relative_with_extension(normalized_relative(relative_to_result(path, root)->0), Seq::empty()),
    )
}

/// The entries after a metadata file of `main` and `inner` was read.
pub open spec fn loaded_metas(
    metas: Map<u128, AssetMetaView>,
    main: AssetMetaView,
    inner: Seq<AssetMetaView>,
) -> Map<u128, AssetMetaView> {
    insert_entries(
        metas.insert(main.id, loaded_main(main, inner)),
        localized_all(inner, main.name, main.id),
    )
}

/// The names after the metadata file `meta_path` of `main` and `inner`
/// under the root `root` was read.
pub open spec fn loaded_names(
    names: Map<Seq<Seq<char>>, u128>,
    root: Seq<char>,
    meta_path: Seq<char>,
    main: AssetMetaView,
    inner: Seq<AssetMetaView>,
) -> Map<Seq<Seq<char>>, u128> {
    insert_sub_names(
        names.insert(file_name_key(root, meta_path), main.id),
        localized_all(inner, main.name, main.id),
        main.name,
    )
}

/// The entry made for an asset file without metadata: named by its path
/// relative to the root without extension, displayed by its file stem.
pub open spec fn fresh_meta(root: Seq<char>, path: Seq<char>, fresh_id: u128) -> AssetMetaView {
    AssetMetaView {
        id: fresh_id,
        name: relative_with_extension(relative_to_result(path, root)->0, Seq::empty()),
        display_name: match path_file_stem_result(path) {
            Some(s) => s,
            None => Seq::empty(),
        },
        type_uuid: 0,
        parent: None,
        children: Seq::empty(),
        path: None,
    }
}

/// The type registered for the extension of `path`, the nil id when none
/// is.
pub open spec fn type_of_path(extensions: Map<Seq<char>, u128>, path: Seq<char>) -> u128 {
    let e = path_extension_result(path)->0;
    if extensions.contains_key(e) {
        extensions[e]
    } else {
        0
    }
}

/// What a change notification asks of the registry for one path.
#[derive(Debug, Clone, Copy, PartialEq, Eq, Structural)]
pub enum NotifyAction {
    /// Nothing: the path is not an asset file.
    Ignore,
    /// Build the metadata of a new file.
    BuildMeta,
    /// Mark the asset (and its dependents) for a reload.
    MarkDirty,
    /// Remove the metadata file of a deleted asset.
    RemoveMetaFile,
}

/// The kind of a file change notification.
#[derive(Debug, Clone, Copy, PartialEq, Eq, Structural)]
pub enum NotifyEventKind {
    Create,
    Modify,
    Remove,
    Other,
}

/// What a notification of `kind` for `path` asks: a path that is not a file
/// (unless removed), has no extension, or is a metadata or temporary file is
/// ignored; a removal of a file that still exists is a replacement.
pub open spec fn notify_action_spec(kind: NotifyEventKind, path: Seq<char>, is_file: bool) -> NotifyAction {
    if !(kind == NotifyEventKind::Remove || is_file) {
        NotifyAction::Ignore
    } else {
        match path_extension_result(path) {
            None => NotifyAction::Ignore,
            Some(e) => if e == "meta"@ || e == "tmp"@ {
                NotifyAction::Ignore
            } else {
                match kind {
                    NotifyEventKind::Create => NotifyAction::BuildMeta,
                    NotifyEventKind::Modify => NotifyAction::MarkDirty,
                    NotifyEventKind::Remove => if is_file {
                        NotifyAction::MarkDirty
                    } else {
                        NotifyAction::RemoveMetaFile
                    },
                    NotifyEventKind::Other => NotifyAction::Ignore,
                }
            },
        }
    }
}

/// What a notification of `kind` for `path` asks of the registry;
/// `is_file` tells whether a file is at `path` now.
pub fn notify_action(kind: NotifyEventKind, path: &str, is_file: bool) -> (r: NotifyAction)
    ensures
        r == notify_action_spec(kind, path@, is_file),
{
    let removal = match kind {
        NotifyEventKind::Remove => true,
        _ => false,
    };
    if !(removal || is_file) {
        return NotifyAction::Ignore;
    }
    let ext = match path_extension(path) {
        Some(e) => e,
        None => return NotifyAction::Ignore,
    };
    if same_text(ext.as_str(), "meta") || same_text(ext.as_str(), "tmp") {
        return NotifyAction::Ignore;
    }
    match kind {
        NotifyEventKind::Create => NotifyAction::BuildMeta,
        NotifyEventKind::Modify => NotifyAction::MarkDirty,
        NotifyEventKind::Remove => if is_file {
            NotifyAction::MarkDirty
        } else {
            NotifyAction::RemoveMetaFile
        },
        NotifyEventKind::Other => NotifyAction::Ignore,
    }
}

/// Whether an asset file can be recorded: `path` has an extension and lies
/// under `root`, and so does its metadata file when one was read.
pub open spec fn build_admissible(
    root: Seq<char>,
    path: Seq<char>,
    meta_path: Seq<char>,
    has_stored: bool,
) -> bool {
    &&& path_extension_result(path) is Some
    &&& relative_to_result(path, root) is Some
    &&& has_stored ==> relative_to_result(meta_path, root) is Some
}

/// The text naming an asset id in an error: `asset id <uuid>`.
pub open spec fn id_source(id: u128) -> Seq<char> {
    "asset id "@ + uuid_text(id)
}

/// The text naming the missing path of an asset: ``path for asset `<name>` ``.
pub open spec fn path_source(name: Seq<char>) -> Seq<char> {
    "path for asset `"@ + name + "`"@
}

/// A `NotFound` error with only a source, of text `text`.
pub open spec fn not_found_with_source(e: AssetError, text: Seq<char>) -> bool {
    &&& e.kind == AssetErrorKind::NotFound
    &&& e.path is None
    &&& e.asset_type is None
    &&& e.source matches Some(s) && s@ == text
}

/// The metadata part of the asset registry: entries by id, ids by name,
/// asset types by file extension, pending hot reloads, shader dependencies,
/// reload failures, and which assets are held in memory with which type.
pub struct AssetRegistry {
    asset_paths: Vec<String>,
    meta: Vec<(u128, AssetMeta)>,
    names: Vec<(PathKey, u128)>,
    extensions: Vec<(String, u128)>,
    dirty: Vec<(u128, u64)>,
    dependencies: Vec<(String, Vec<u128>)>,
    reload_errors: Vec<AssetReloadError>,
    cached: Vec<(u128, u128)>,
}

impl AssetRegistry {
    /// The asset roots.
    pub closed spec fn roots(&self) -> Seq<Seq<char>> {
        texts(self.asset_paths@)
    }

    /// The entries by id.
    pub closed spec fn metas(&self) -> Map<u128, AssetMetaView> {
        Map::new(
            |id: u128| table_map(self.meta@).contains_key(id),
            |id: u128| table_map(self.meta@)[id]@,
        )
    }

    /// The ids by name key.
    pub closed spec fn names(&self) -> Map<Seq<Seq<char>>, u128> {
        table_map(self.names@)
    }

    /// The asset type ids by file extension.
    pub closed spec fn extensions(&self) -> Map<Seq<char>, u128> {
        table_map(self.extensions@)
    }

    /// The assets waiting for a hot reload, with the time at which each was
    /// last marked.
    pub closed spec fn dirty(&self) -> Map<u128, u64> {
        table_map(self.dirty@)
    }

    /// The assets that depend on each (canonical) source path.
    pub closed spec fn dependencies(&self) -> Map<Seq<char>, Set<u128>> {
        Map::new(
            |p: Seq<char>| table_map(self.dependencies@).contains_key(p),
            |p: Seq<char>| table_map(self.dependencies@)[p]@.to_set(),
        )
    }

    /// The recorded reload failures, oldest first.
    pub closed spec fn reload_error_list(&self) -> Seq<AssetReloadError> {
        self.reload_errors@
    }

    /// The assets held in memory, with the type id of each value.
    pub closed spec fn cached(&self) -> Map<u128, u128> {
        table_map(self.cached@)
    }

    /// What `build_asset_meta` does: the entry of the file (read from its
    /// metadata file, or made new) gets the type of its extension and its
    /// absolute path, and its name key; its shader dependencies are
    /// renewed. The result is the new metadata to store, if it was made new.
    pub open spec fn build_outcome(
        &self,
        old: &AssetRegistry,
        root: Seq<char>,
        path: Seq<char>,
        meta_path: Seq<char>,
        absolute_path: Seq<char>,
        stored: Option<AssetMetaData>,
        fresh_id: u128,
        includes: Seq<Seq<char>>,
        r: Option<AssetMetaData>,
    ) -> bool {
        let base = match stored {
            Some(d) => loaded_main(d.main@, meta_views(d.inner@)),
            None => fresh_meta(root, path, fresh_id),
        };
        let id = base.id;
        let built = AssetMetaView {
            type_uuid: type_of_path(old.extensions(), path),
            path: Some(absolute_path),
            ..base
        };
        let m1 = match stored {
            Some(d) => loaded_metas(old.metas(), d.main@, meta_views(d.inner@)),
            None => old.metas(),
        };
        let n1 = match stored {
            Some(d) => loaded_names(old.names(), root, meta_path, d.main@, meta_views(d.inner@)),
            None => old.names(),
        };
        &&& self.metas() == m1.insert(id, built)
        &&& self.names() == n1.insert(file_name_key(root, path), id)
        &&& self.dependencies() == updated_dependencies(old.dependencies(), id, path, includes)
        &&& self.cached() == old.cached()
        &&& self.roots() == old.roots()
        &&& self.extensions() == old.extensions()
        &&& self.dirty() == old.dirty()
        &&& self.reload_error_list() == old.reload_error_list()
        &&& match r {
            Some(d) => stored is None && d.main@ == fresh_meta(root, path, fresh_id) && d.inner@.len()
                == 0,
            None => stored is Some,
        }
    }

    /// The ids of the entries, in the order in which they were first
    /// recorded.
    pub closed spec fn meta_order(&self) -> Seq<u128> {
        Seq::new(self.meta@.len(), |i: int| self.meta@[i].0)
    }

    /// The registry's internal invariant: it holds of every registry that
    /// the methods below build or change.
    #[verifier::type_invariant]
    pub closed spec fn wf(&self) -> bool {
        &&& table_unique(self.meta@)
        &&& table_unique(self.names@)
        &&& table_unique(self.extensions@)
        &&& table_unique(self.dirty@)
        &&& table_unique(self.dependencies@)
        &&& table_unique(self.cached@)
        &&& forall|id: u128| #[trigger]
            table_map(self.meta@).contains_key(id) ==> table_map(self.meta@)[id].id == id
        &&& forall|p: Seq<char>| #[trigger]
            table_map(self.dependencies@).contains_key(p) ==> table_map(self.dependencies@)[p]@.len()
                > 0 && table_map(self.dependencies@)[p]@.no_duplicates()
        &&& forall|i: int, j: int|
            0 <= i < j < self.reload_errors@.len() ==> #[trigger] self.reload_errors@[i].id
                != #[trigger] self.reload_errors@[j].id
    }

    /// The parts that only loading, file events and reloads change: roots,
    /// extensions, pending reloads, dependencies and reload failures.
    pub open spec fn same_sources(&self, other: &AssetRegistry) -> bool {
        &&& self.roots() == other.roots()
        &&& self.extensions() == other.extensions()
        &&& self.dirty() == other.dirty()
        &&& self.dependencies() == other.dependencies()
        &&& self.reload_error_list() == other.reload_error_list()
    }

    /// No two recorded reload failures are of the same asset.
    pub proof fn lemma_reload_errors_unique(&self)
        requires
            self.wf(),
        ensures
            forall|i: int, j: int|
                0 <= i < j < self.reload_error_list().len() ==> #[trigger] self.reload_error_list()[i].id
                    != #[trigger] self.reload_error_list()[j].id,
    {
    }

    /// The registry has finitely many entries.
    pub proof fn lemma_metas_finite(&self)
        requires
            self.wf(),
        ensures
            self.metas().dom().finite(),
    {
        let ids = self.meta_order();
        vstd::seq_lib::seq_to_set_is_finite(ids);
        assert forall|id: u128| #[trigger] self.metas().dom().contains(id) implies ids.to_set().contains(id) by {
            let j = choose|j: int| 0 <= j < self.meta@.len() && #[trigger] self.meta@[j].0.key() == id;
            assert(ids[j] == id);
        }
        vstd::set_lib::lemma_len_subset(self.metas().dom(), ids.to_set());
    }

    /// The entries in `meta_order` are exactly those of the registry.
    pub proof fn lemma_meta_order_lists_ids(&self)
        requires
            self.wf(),
        ensures
            self.meta_order().to_set() == self.metas().dom(),
    {
        let ids = self.meta_order();
        assert forall|id: u128| #[trigger] ids.to_set().contains(id) == self.metas().dom().contains(id) by {
            if ids.to_set().contains(id) {
                let j = choose|j: int| 0 <= j < ids.len() && ids[j] == id;
                lemma_table_map_at(self.meta@, j);
            }
            if self.metas().dom().contains(id) {
                let j = choose|j: int| 0 <= j < self.meta@.len() && #[trigger] self.meta@[j].0.key() == id;
                assert(ids[j] == id);
            }
        }
        assert(ids.to_set() =~= self.metas().dom());
    }

    /// The ids of the entries, in `meta_order`.
    pub fn asset_ids(&self) -> (r: Vec<u128>)
        ensures
            r@ == self.meta_order(),
    {
        let mut r: Vec<u128> = Vec::new();
        let mut i: usize = 0;
        while i < self.meta.len()
            invariant
                i <= self.meta@.len(),
                r@ == self.meta_order().take(i as int),
            decreases self.meta@.len() - i,
        {
            r.push(self.meta[i].0);
            i = i + 1;
            proof {
                assert(r@ =~= self.meta_order().take(i as int));
            }
        }
        proof {
            assert(self.meta_order().take(self.meta@.len() as int) =~= self.meta_order());
        }
        r
    }

    /// Every entry is recorded under its own id.
    pub proof fn lemma_meta_ids(&self)
        requires
            self.wf(),
        ensures
            forall|id: u128| #[trigger] self.metas().contains_key(id) ==> self.metas()[id].id == id,
    {
    }

    /// A registry over the asset roots `asset_paths`, with no entries.
    pub fn new(asset_paths: Vec<String>) -> (r: AssetRegistry)
        ensures
            r.roots() == texts(asset_paths@),
            r.metas() == Map::<u128, AssetMetaView>::empty(),
            r.names() == Map::<Seq<Seq<char>>, u128>::empty(),
            r.extensions() == Map::<Seq<char>, u128>::empty(),
            r.dirty() == Map::<u128, u64>::empty(),
            r.dependencies() == Map::<Seq<char>, Set<u128>>::empty(),
            r.reload_error_list() == Seq::<AssetReloadError>::empty(),
            r.cached() == Map::<u128, u128>::empty(),
    {
        let r = AssetRegistry {
            asset_paths,
            meta: Vec::new(),
            names: Vec::new(),
            extensions: Vec::new(),
            dirty: Vec::new(),
            dependencies: Vec::new(),
            reload_errors: Vec::new(),
            cached: Vec::new(),
        };
        proof {
            lemma_table_empty(r.meta@);
            lemma_table_empty(r.names@);
            lemma_table_empty(r.extensions@);
            lemma_table_empty(r.dirty@);
            lemma_table_empty(r.dependencies@);
            lemma_table_empty(r.cached@);
            assert(r.metas() =~= Map::<u128, AssetMetaView>::empty());
            assert(r.dependencies() =~= Map::<Seq<char>, Set<u128>>::empty());
        }
        r
    }

    /// The id of the asset named `name`, looked up by its normalized form.
    pub fn asset_id(&self, name: &str) -> (r: Option<u128>)
        ensures
            r == (if self.names().contains_key(name_key(name@)) {
                Some(self.names()[name_key(name@)])
            } else {
                None::<u128>
            }),
    {
        proof {
            use_type_invariant(self);
        }
        let key = PathKey { text: normalize_relative(name) };
        match table_get(&self.names, &key) {
            Some(id) => Some(*id),
            None => None,
        }
    }

    /// The entry of `id`, if any.
    pub fn asset_meta_from_id(&self, id: u128) -> (r: Option<AssetMeta>)
        ensures
            match r {
                Some(m) => self.metas().contains_key(id) && m@ == self.metas()[id],
                None => !self.metas().contains_key(id),
            },
    {
        proof {
            use_type_invariant(self);
        }
        match table_get(&self.meta, &id) {
            Some(m) => Some(m.duplicate()),
            None => None,
        }
    }

    /// The name of the asset `id`, empty when there is no such entry.
    pub fn asset_name(&self, id: u128) -> (r: String)
        ensures
            r@ == (if self.metas().contains_key(id) {
                self.metas()[id].name
            } else {
                Seq::<char>::empty()
            }),
    {
        proof {
            use_type_invariant(self);
        }
        match table_get(&self.meta, &id) {
            Some(m) => m.name.clone(),
            None => String::new(),
        }
    }

    /// The entry of the asset named `name`, if any.
    pub fn asset_meta(&self, name: &str) -> (r: Option<AssetMeta>)
        ensures
            match r {
                Some(m) => self.names().contains_key(name_key(name@)) && self.metas().contains_key(
                    self.names()[name_key(name@)],
                ) && m@ == self.metas()[self.names()[name_key(name@)]],
                None => !self.names().contains_key(name_key(name@)) || !self.metas().contains_key(
                    self.names()[name_key(name@)],
                ),
            },
    {
        proof {
            use_type_invariant(self);
        }
        match self.asset_id(name) {
            Some(id) => self.asset_meta_from_id(id),
            None => None,
        }
    }

    /// ``asset name `<name>` ``.
    fn quoted_name_text(name: &str) -> (r: String)
        ensures
            r@ == quoted_name(name@),
    {
        let mut s = String::new();
        string_push_str(&mut s, "asset name `");
        string_push_str(&mut s, name);
        string_push_str(&mut s, "`");
        s
    }

    /// The display name of a new entry.
    fn display_name(type_label: Option<&str>, fallback: &str) -> (r: String)
        ensures
            r@ == display_name_spec(type_label, fallback@),
    {
        match type_label {
            Some(l) => l.to_owned(),
            None => fallback.to_owned(),
        }
    }

    fn set_meta(&mut self, m: AssetMeta)
        ensures
            final(self).metas() == old(self).metas().insert(m.id, m@),
            final(self).names() == old(self).names(),
            final(self).cached() == old(self).cached(),
            final(self).same_sources(&*old(self)),
    {
        proof {
            use_type_invariant(&*self);
        }
        let ghost id = m.id;
        let ghost mv = m@;
        proof {
            use_type_invariant(&*self);
        }
        let mut meta_tbl = Vec::new();
        std::mem::swap(&mut meta_tbl, &mut self.meta);
        table_upsert(&mut meta_tbl, m.id, m);
        self.meta = meta_tbl;
        proof {
            assert(self.metas() =~= old(self).metas().insert(id, mv));
        }
    }

    fn set_name(&mut self, name: &str, id: u128)
        ensures
            final(self).names() == old(self).names().insert(name_key(name@), id),
            final(self).metas() == old(self).metas(),
            final(self).cached() == old(self).cached(),
            final(self).same_sources(&*old(self)),
    {
        proof {
            use_type_invariant(&*self);
        }
        let key = PathKey { text: normalize_relative(name) };
        proof {
            use_type_invariant(&*self);
        }
        let mut names_tbl = Vec::new();
        std::mem::swap(&mut names_tbl, &mut self.names);
        table_upsert(&mut names_tbl, key, id);
        self.names = names_tbl;
        proof {
            assert(self.metas() =~= old(self).metas());
        }
    }

    fn set_cached(&mut self, id: u128, type_uuid: u128)
        ensures
            final(self).cached() == old(self).cached().insert(id, type_uuid),
            final(self).metas() == old(self).metas(),
            final(self).names() == old(self).names(),
            final(self).same_sources(&*old(self)),
    {
        proof {
            use_type_invariant(&*self);
            use_type_invariant(&*self);
        }
        let mut cached_tbl = Vec::new();
        std::mem::swap(&mut cached_tbl, &mut self.cached);
        table_upsert(&mut cached_tbl, id, type_uuid);
        self.cached = cached_tbl;
        proof {
            assert(self.metas() =~= old(self).metas());
        }
    }

    fn upsert_in_memory_asset_meta(
        &mut self,
        id: u128,
        name: &str,
        type_uuid: u128,
        display_name: String,
    )
        ensures
            final(self).metas() == old(self).metas().insert(
                id,
                in_memory_meta(old(self).metas(), id, name@, type_uuid, display_name@),
            ),
            final(self).names() == old(self).names().insert(name_key(name@), id),
            final(self).cached() == old(self).cached(),
            final(self).same_sources(&*old(self)),
    {
        proof {
            use_type_invariant(&*self);
        }
        let (parent, children, path) = match table_get(&self.meta, &id) {
            Some(m) => (m.parent, copy_ids(&m.children), copy_opt_string(&m.path)),
            None => (None, Vec::new(), None),
        };
        self.set_name(name, id);
        let m = AssetMeta {
            id,
            name: name.to_owned(),
            display_name,
            type_uuid,
            parent,
            children,
            path,
        };
        self.set_meta(m);
    }

    fn upsert_sub_asset_meta(
        &mut self,
        id: u128,
        parent_id: u128,
        parent_name: &str,
        local_name: &str,
        type_uuid: u128,
        display_name: String,
    )
        ensures
            final(self).metas() == old(self).metas().insert(
                id,
                sub_meta(id, local_name@, type_uuid, display_name@, parent_id),
            ),
            final(self).names() == old(self).names().insert(
                name_key(sub_asset_name_spec(parent_name@, local_name@)),
                id,
            ),
            final(self).cached() == old(self).cached(),
            final(self).same_sources(&*old(self)),
    {
        proof {
            use_type_invariant(&*self);
        }
        let canonical_name = Self::sub_asset_name(parent_name, local_name);
        self.set_name(canonical_name.as_str(), id);
        let m = AssetMeta {
            id,
            name: local_name.to_owned(),
            display_name,
            type_uuid,
            parent: Some(parent_id),
            children: Vec::new(),
            path: None,
        };
        self.set_meta(m);
    }

    /// Records a new in-memory asset named `name` under the id `name_id`
    /// (the id derived from the name). A name that is taken is refused.
    pub fn create(
        &mut self,
        name: &str,
        type_uuid: u128,
        type_label: Option<&str>,
        name_id: u128,
    ) -> (r: Result<u128, AssetError>)
        ensures
            match r {
                Ok(id) => {
                    &&& !old(self).names().contains_key(name_key(name@))
                    &&& id == name_id
                    &&& final(self).metas() == old(self).metas().insert(
                        id,
                        in_memory_meta(
                            old(self).metas(),
                            id,
                            name@,
                            type_uuid,
                            display_name_spec(type_label, name@),
                        ),
                    )
                    &&& final(self).names() == old(self).names().insert(name_key(name@), id)
                    &&& final(self).cached() == old(self).cached().insert(id, type_uuid)
                    &&& final(self).same_sources(&*old(self))
                },
                Err(e) => {
                    &&& old(self).names().contains_key(name_key(name@))
                    &&& name_error(e, AssetErrorKind::AlreadyExists, name@)
                    &&& *final(self) == *old(self)
                },
            },
    {
        proof {
            use_type_invariant(&*self);
        }
        if self.asset_id(name).is_some() {
            return Err(AssetError::already_exists().with_source(Self::quoted_name_text(name)));
        }
        let display_name = Self::display_name(type_label, name);
        self.upsert_in_memory_asset_meta(name_id, name, type_uuid, display_name);
        self.set_cached(name_id, type_uuid);
        Ok(name_id)
    }

    /// Records an in-memory asset named `name`, or updates the one of that
    /// name and type; `name_id` is the id derived from the name. The result
    /// is the id and whether a value was already held for it.
    pub fn create_or_update(
        &mut self,
        name: &str,
        type_uuid: u128,
        asset_type: &'static str,
        type_label: Option<&str>,
        name_id: u128,
    ) -> (r: Result<(u128, bool), AssetError>)
        ensures
            match r {
                Ok((id, updated)) => {
                    &&& in_memory_decision(
                        old(self).names(),
                        old(self).metas(),
                        old(self).cached(),
                        name_key(name@),
                        type_uuid,
                        name_id,
                    ) == Ok::<u128, AssetErrorKind>(id)
                    &&& updated == old(self).cached().contains_key(id)
                    &&& final(self).metas() == old(self).metas().insert(
                        id,
                        in_memory_meta(
                            old(self).metas(),
                            id,
                            name@,
                            type_uuid,
                            display_name_spec(type_label, name@),
                        ),
                    )
                    &&& final(self).names() == old(self).names().insert(name_key(name@), id)
                    &&& final(self).cached() == old(self).cached().insert(id, type_uuid)
                    &&& final(self).same_sources(&*old(self))
                },
                Err(e) => {
                    &&& refusal_error(
                        in_memory_decision(
                            old(self).names(),
                            old(self).metas(),
                            old(self).cached(),
                            name_key(name@),
                            type_uuid,
                            name_id,
                        ),
                        e,
                        asset_type,
                        name@,
                    )
                    &&& *final(self) == *old(self)
                },
            },
    {
        proof {
            use_type_invariant(&*self);
        }
        let display_name = Self::display_name(type_label, name);
        let key = PathKey { text: normalize_relative(name) };
        let id: u128 = match table_get(&self.names, &key) {
            Some(found) => {
                let found: u128 = *found;
                match table_get(&self.meta, &found) {
                    Some(meta) => {
                        if meta.path.is_some() || meta.parent.is_some() {
                            return Err(
                                AssetError::already_exists().with_source(
                                    Self::quoted_name_text(name),
                                ),
                            );
                        }
                        if meta.type_uuid != type_uuid {
                            return Err(
                                AssetError::type_mismatch().with_type(asset_type).with_source(
                                    Self::quoted_name_text(name),
                                ),
                            );
                        }
                    },
                    None => {},
                }
                found
            },
            None => name_id,
        };
        let updated = match table_get(&self.cached, &id) {
            Some(t) => {
                if *t != type_uuid {
                    return Err(
                        AssetError::type_mismatch().with_type(asset_type).with_source(
                            Self::quoted_name_text(name),
                        ),
                    );
                }
                true
            },
            None => false,
        };
        self.upsert_in_memory_asset_meta(id, name, type_uuid, display_name);
        self.set_cached(id, type_uuid);
        Ok((id, updated))
    }

    /// Records the sub-asset `local_name` of the asset `parent_id` named
    /// `parent_name`, or updates it; `canonical_id` is the id derived from
    /// its canonical name. The result is the id and whether a value was
    /// already held for it.
    pub fn create_or_update_sub_asset(
        &mut self,
        parent_id: u128,
        parent_name: &str,
        local_name: &str,
        type_uuid: u128,
        asset_type: &'static str,
        type_label: Option<&str>,
        canonical_id: u128,
    ) -> (r: Result<(u128, bool), AssetError>)
        ensures
            ({
                let canonical = sub_asset_name_spec(parent_name@, local_name@);
                let decision = sub_asset_decision(
                    old(self).names(),
                    old(self).metas(),
                    old(self).cached(),
                    name_key(canonical),
                    type_uuid,
                    parent_id,
                    local_name@,
                    canonical_id,
                );
                match r {
                    Ok((id, updated)) => {
                        &&& decision == Ok::<u128, AssetErrorKind>(id)
                        &&& updated == old(self).cached().contains_key(id)
                        &&& final(self).metas() == old(self).metas().insert(
                            id,
                            sub_meta(
                                id,
                                local_name@,
                                type_uuid,
                                display_name_spec(type_label, local_name@),
                                parent_id,
                            ),
                        )
                        &&& final(self).names() == old(self).names().insert(name_key(canonical), id)
                        &&& final(self).cached() == old(self).cached().insert(id, type_uuid)
                        &&& final(self).same_sources(&*old(self))
                    },
                    Err(e) => {
                        &&& refusal_error(decision, e, asset_type, canonical)
                        &&& *final(self) == *old(self)
                    },
                }
            }),
    {
        proof {
            use_type_invariant(&*self);
        }
        let canonical_name = Self::sub_asset_name(parent_name, local_name);
        let display_name = Self::display_name(type_label, local_name);
        let key = PathKey { text: normalize_relative(canonical_name.as_str()) };
        let id: u128 = match table_get(&self.names, &key) {
            Some(found) => {
                let found: u128 = *found;
                match table_get(&self.meta, &found) {
                    Some(meta) => {
                        let other_parent = match meta.parent {
                            Some(existing) => existing != parent_id,
                            None => false,
                        };
                        if meta.path.is_some() || other_parent || !same_text(
                            meta.name.as_str(),
                            local_name,
                        ) {
                            return Err(
                                AssetError::already_exists().with_source(
                                    Self::quoted_name_text(canonical_name.as_str()),
                                ),
                            );
                        }
                        if meta.type_uuid != type_uuid {
                            return Err(
                                AssetError::type_mismatch().with_type(asset_type).with_source(
                                    Self::quoted_name_text(canonical_name.as_str()),
                                ),
                            );
                        }
                    },
                    None => {},
                }
                found
            },
            None => canonical_id,
        };
        let updated = match table_get(&self.cached, &id) {
            Some(t) => {
                if *t != type_uuid {
                    return Err(
                        AssetError::type_mismatch().with_type(asset_type).with_source(
                            Self::quoted_name_text(canonical_name.as_str()),
                        ),
                    );
                }
                true
            },
            None => false,
        };
        self.upsert_sub_asset_meta(id, parent_id, parent_name, local_name, type_uuid, display_name);
        self.set_cached(id, type_uuid);
        Ok((id, updated))
    }

    /// The local name of the sub-asset named `child_name` under the asset
    /// named `parent_name`.
    pub fn local_sub_asset_name(parent_name: &str, child_name: &str) -> (r: String)
        ensures
            r@ == local_sub_asset_name_spec(parent_name@, child_name@),
    {
        let parent = normalize_relative(parent_name);
        let child = normalize_relative(child_name);
        let p = chars_of(parent.as_str());
        let c = chars_of(child.as_str());
        let ghost pre = p@ + seq!['/'];
        if p.len() < c.len() {
            let mut i: usize = 0;
            let mut same = true;
            while i < p.len()
                invariant
                    i <= p@.len(),
                    p@.len() < c@.len(),
                    same == (forall|t: int| 0 <= t < i ==> p@[t] == c@[t]),
                decreases p@.len() - i,
            {
                if p[i] != c[i] {
                    same = false;
                }
                i = i + 1;
            }
            if same && c[p.len()] == '/' {
                proof {
                    assert(pre.is_prefix_of(c@));
                }
                return string_from_chars(&c, p.len() + 1);
            }
            proof {
                if pre.is_prefix_of(c@) {
                    assert(pre[p@.len() as int] == '/');
                    if !same {
                        let t = choose|t: int| 0 <= t < p@.len() && p@[t] != c@[t];
                        assert(pre[t] == p@[t]);
                    }
                }
            }
        }
        proof {
            if pre.is_prefix_of(c@) {
                assert(pre.len() <= c@.len());
            }
        }
        child
    }

    /// Attaches the assets `sub_assets` to the asset `id` as its children.
    /// When `id` has a source file, the result is the metadata to store
    /// beside it: its entry and those of the sub-assets, as they were.
    pub fn load_sub_asset_meta(&mut self, id: u128, sub_assets: Vec<u128>) -> (r: Option<
        AssetMetaData,
    >)
        ensures
            final(self).metas() == Map::new(
                |k: u128| old(self).metas().contains_key(k),
                |k: u128| linked_meta(old(self).metas()[k], k, id, sub_assets@),
            ),
            final(self).names() == old(self).names(),
            final(self).cached() == old(self).cached(),
            final(self).same_sources(&*old(self)),
            match r {
                Some(d) => {
                    &&& old(self).metas().contains_key(id)
                    &&& old(self).metas()[id].path is Some
                    &&& d.main@ == old(self).metas()[id]
                    &&& meta_views(d.inner@) == present_metas(old(self).metas(), sub_assets@)
                },
                None => !(old(self).metas().contains_key(id) && old(self).metas()[id].path is Some),
            },
    {
        proof {
            use_type_invariant(&*self);
        }
        let ghost m0 = self.metas();
        let to_write = match table_get(&self.meta, &id) {
            Some(parent) => {
                if parent.path.is_some() {
                    let main = parent.duplicate();
                    let mut inner: Vec<AssetMeta> = Vec::new();
                    let mut i: usize = 0;
                    while i < sub_assets.len()
                        invariant
                            i <= sub_assets@.len(),
                            self.wf(),
                            self.metas() == m0,
                            meta_views(inner@) == present_metas(m0, sub_assets@.take(i as int)),
                        decreases sub_assets@.len() - i,
                    {
                        let ghost before = inner@;
                        proof {
                            assert(sub_assets@.take(i + 1).drop_last() =~= sub_assets@.take(i as int));
                        }
                        match table_get(&self.meta, &sub_assets[i]) {
                            Some(child) => {
                                inner.push(child.duplicate());
                                proof {
                                    assert(meta_views(inner@) =~= meta_views(before).push(
                                        m0[sub_assets@[i as int]],
                                    ));
                                }
                            },
                            None => {},
                        }
                        i = i + 1;
                        proof {
                            use_type_invariant(&*self);
                        }
                    }
                    proof {
                        assert(sub_assets@.take(sub_assets@.len() as int) =~= sub_assets@);
                    }
                    Some(AssetMetaData { main, inner })
                } else {
                    None
                }
            },
            None => None,
        };
        let mut i: usize = 0;
        while i < sub_assets.len()
            invariant
                i <= sub_assets@.len(),
                self.wf(),
                self.names() == old(self).names(),
                self.cached() == old(self).cached(),
                self.same_sources(&*old(self)),
                self.metas() == Map::new(
                    |k: u128| m0.contains_key(k),
                    |k: u128|
                        if sub_assets@.take(i as int).contains(k) {
                            AssetMetaView { parent: Some(id), ..m0[k] }
                        } else {
                            m0[k]
                        },
                ),
            decreases sub_assets@.len() - i,
        {
            let child_id = sub_assets[i];
            let ghost before = self.metas();
            match table_get(&self.meta, &child_id) {
                Some(child) => {
                    let mut m = child.duplicate();
                    m.parent = Some(id);
                    proof {
                        assert(child@ == before[child_id]);
                        assert(m@ == AssetMetaView { parent: Some(id), ..m0[child_id] });
                    }
                    self.set_meta(m);
                },
                None => {},
            }
            proof {
                let t0 = sub_assets@.take(i as int);
                let t1 = sub_assets@.take(i + 1);
                assert(t1 =~= t0.push(child_id));
                assert forall|k: u128| #[trigger] t1.contains(k) == (t0.contains(k) || k == child_id) by {
                    if t1.contains(k) {
                        let j = choose|j: int| 0 <= j < t1.len() && t1[j] == k;
                        if j < t0.len() {
                            assert(t0[j] == k);
                        }
                    }
                    if t0.contains(k) {
                        let j = choose|j: int| 0 <= j < t0.len() && t0[j] == k;
                        assert(t1[j] == k);
                    }
                    if k == child_id {
                        assert(t1[i as int] == k);
                    }
                }
                let target = Map::new(
                    |k: u128| m0.contains_key(k),
                    |k: u128|
                        if t1.contains(k) {
                            AssetMetaView { parent: Some(id), ..m0[k] }
                        } else {
                            m0[k]
                        },
                );
                assert forall|k: u128| #[trigger] self.metas().contains_key(k) == target.contains_key(k)
                    by {
                    assert(before.contains_key(k) == m0.contains_key(k));
                }
                assert forall|k: u128| #[trigger] self.metas().contains_key(k) implies self.metas()[k]
                    == target[k] by {
                    assert(before.contains_key(k) == m0.contains_key(k));
                    if k != child_id {
                        assert(self.metas()[k] == before[k]);
                    }
                }
                assert(self.metas() =~= target);
            }
            i = i + 1;
            proof {
                use_type_invariant(&*self);
            }
        }
        proof {
            assert(sub_assets@.take(sub_assets@.len() as int) =~= sub_assets@);
        }
        let ghost m1 = self.metas();
        match table_get(&self.meta, &id) {
            Some(parent) => {
                let mut m = parent.duplicate();
                m.children = sub_assets;
                self.set_meta(m);
            },
            None => {},
        }
        proof {
            assert(self.metas() =~= Map::new(
                |k: u128| m0.contains_key(k),
                |k: u128| linked_meta(m0[k], k, id, sub_assets@),
            ));
        }
        to_write
    }

    /// Registers the file extensions `extensions` of the asset type
    /// `type_uuid`; an extension registered before now maps to this type.
    pub fn register_asset_type(&mut self, type_uuid: u128, extensions: &[&str])
        ensures
            final(self).extensions() == old(self).extensions().union_prefer_right(
                extension_map(extensions@, type_uuid),
            ),
            final(self).metas() == old(self).metas(),
            final(self).names() == old(self).names(),
            final(self).cached() == old(self).cached(),
            final(self).roots() == old(self).roots(),
            final(self).dirty() == old(self).dirty(),
            final(self).dependencies() == old(self).dependencies(),
            final(self).reload_error_list() == old(self).reload_error_list(),
    {
        proof {
            use_type_invariant(&*self);
        }
        let ghost e0 = self.extensions();
        let mut i: usize = 0;
        while i < extensions.len()
            invariant
                i <= extensions@.len(),
                self.wf(),
                self.extensions() == e0.union_prefer_right(
                    extension_map(extensions@.take(i as int), type_uuid),
                ),
                self.metas() == old(self).metas(),
                self.names() == old(self).names(),
                self.cached() == old(self).cached(),
                self.roots() == old(self).roots(),
                self.dirty() == old(self).dirty(),
                self.dependencies() == old(self).dependencies(),
                self.reload_error_list() == old(self).reload_error_list(),
            decreases extensions@.len() - i,
        {
            let ext: &str = extensions[i];
            proof {
                use_type_invariant(&*self);
            }
            let mut extensions_tbl = Vec::new();
            std::mem::swap(&mut extensions_tbl, &mut self.extensions);
            table_upsert(&mut extensions_tbl, ext.to_owned(), type_uuid);
            self.extensions = extensions_tbl;
            proof {
                let t0 = extensions@.take(i as int);
                let t1 = extensions@.take(i + 1);
                assert forall|e: Seq<char>| #[trigger]
                    extension_map(t1, type_uuid).contains_key(e) == (extension_map(
                        t0,
                        type_uuid,
                    ).contains_key(e) || e == ext@) by {
                    if extension_map(t1, type_uuid).contains_key(e) {
                        let j = choose|j: int| 0 <= j < t1.len() && #[trigger] t1[j]@ == e;
                        if j < t0.len() {
                            assert(t0[j]@ == e);
                        }
                    }
                    if extension_map(t0, type_uuid).contains_key(e) {
                        let j = choose|j: int| 0 <= j < t0.len() && #[trigger] t0[j]@ == e;
                        assert(t1[j]@ == e);
                    }
                    if e == ext@ {
                        assert(t1[i as int]@ == e);
                    }
                }
                assert(self.extensions() =~= e0.union_prefer_right(extension_map(t1, type_uuid)));
                assert(self.metas() =~= old(self).metas());
                assert(self.dependencies() =~= old(self).dependencies());
            }
            i = i + 1;
            proof {
                use_type_invariant(&*self);
            }
        }
        proof {
            assert(extensions@.take(extensions@.len() as int) =~= extensions@);
        }
    }

    /// The asset type registered for the file extension `ext`.
    pub fn asset_type_uuid_from_ext(&self, ext: &str) -> (r: Option<u128>)
        ensures
            r == (if self.extensions().contains_key(ext@) {
                Some(self.extensions()[ext@])
            } else {
                None::<u128>
            }),
    {
        proof {
            use_type_invariant(self);
        }
        match table_get(&self.extensions, &ext.to_owned()) {
            Some(t) => Some(*t),
            None => None,
        }
    }

    /// The source path of the asset `id` when its extension is one of
    /// `extensions` (a path without extension counts as the empty one).
    pub fn asset_path(&self, id: u128, extensions: &[&str]) -> (r: Option<String>)
        ensures
            match r {
                Some(p) => {
                    &&& self.metas().contains_key(id)
                    &&& self.metas()[id].path == Some(p@)
                    &&& lists_text(extensions@, extension_or_empty(p@))
                },
                None => !(self.metas().contains_key(id) && (self.metas()[id].path matches Some(p)
                    && lists_text(extensions@, extension_or_empty(p)))),
            },
    {
        proof {
            use_type_invariant(self);
        }
        let meta = match table_get(&self.meta, &id) {
            Some(m) => m,
            None => return None,
        };
        let path = match &meta.path {
            Some(p) => p,
            None => return None,
        };
        proof {
            assert(self.metas()[id] == meta@);
        }
        let ext = match path_extension(path.as_str()) {
            Some(e) => e,
            None => String::new(),
        };
        let mut i: usize = 0;
        while i < extensions.len()
            invariant
                i <= extensions@.len(),
                ext@ == extension_or_empty(path@),
                self.metas().contains_key(id),
                self.metas()[id] == meta@,
                meta.path == Some(*path),
                forall|j: int| 0 <= j < i ==> #[trigger] extensions@[j]@ != ext@,
            decreases extensions@.len() - i,
        {
            if same_text(extensions[i], ext.as_str()) {
                proof {
                    assert(extensions@[i as int]@ == ext@);
                }
                return Some(path.clone());
            }
            i = i + 1;
        }
        None
    }

    /// Fills `list` with the entries whose lower-case display name holds
    /// the lower-case `search_term`, of the type `asset_type` when one is
    /// given, in the order of `meta_order`.
    pub fn search_assets(&self, search_term: &str, asset_type: Option<u128>, list: &mut Vec<AssetMeta>)
        ensures
            meta_views(final(list)@) == search_hits(
                self.meta_order(),
                self.metas(),
                lowercase(search_term@),
                asset_type,
            ),
    {
        proof {
            use_type_invariant(self);
        }
        list.clear();
        let term = to_lowercase(search_term);
        let mut i: usize = 0;
        while i < self.meta.len()
            invariant
                self.wf(),
                i <= self.meta@.len(),
                term@ == lowercase(search_term@),
                meta_views(list@) == search_hits(
                    self.meta_order().take(i as int),
                    self.metas(),
                    term@,
                    asset_type,
                ),
            decreases self.meta@.len() - i,
        {
            let m = &self.meta[i].1;
            proof {
                lemma_table_map_at(self.meta@, i as int);
                assert(self.meta_order().take(i + 1).drop_last() =~= self.meta_order().take(i as int));
                assert(self.metas()[self.meta_order()[i as int]] == m@);
            }
            let type_ok = match asset_type {
                Some(t) => t == m.type_uuid,
                None => true,
            };
            if type_ok {
                let name = to_lowercase(m.display_name.as_str());
                if contains_text(name.as_str(), term.as_str()) {
                    let ghost before = list@;
                    list.push(m.duplicate());
                    proof {
                        assert(meta_views(list@) =~= meta_views(before).push(m@));
                    }
                }
            }
            i = i + 1;
        }
        proof {
            assert(self.meta_order().take(self.meta@.len() as int) =~= self.meta_order());
        }
    }

    /// Marks the asset `id` as changed at the time `now` (milliseconds).
    pub fn mark_asset_dirty(&mut self, id: u128, now: u64)
        ensures
            final(self).dirty() == old(self).dirty().insert(id, now),
            final(self).metas() == old(self).metas(),
            final(self).names() == old(self).names(),
            final(self).cached() == old(self).cached(),
            final(self).roots() == old(self).roots(),
            final(self).extensions() == old(self).extensions(),
            final(self).dependencies() == old(self).dependencies(),
            final(self).reload_error_list() == old(self).reload_error_list(),
    {
        proof {
            use_type_invariant(&*self);
            use_type_invariant(&*self);
        }
        let mut dirty_tbl = Vec::new();
        std::mem::swap(&mut dirty_tbl, &mut self.dirty);
        table_upsert(&mut dirty_tbl, id, now);
        self.dirty = dirty_tbl;
        proof {
            assert(self.metas() =~= old(self).metas());
            assert(self.dependencies() =~= old(self).dependencies());
        }
    }

    /// Takes the assets whose reload is due at the time `now`: each was
    /// marked at least the debounce time before. They are no longer marked.
    pub fn take_due_reloads(&mut self, now: u64) -> (r: Vec<u128>)
        ensures
            r@.no_duplicates(),
            forall|id: u128| #[trigger]
                r@.contains(id) == (old(self).dirty().contains_key(id) && reload_due(
                    old(self).dirty()[id],
                    now,
                )),
            final(self).dirty() == old(self).dirty().remove_keys(r@.to_set()),
            final(self).metas() == old(self).metas(),
            final(self).names() == old(self).names(),
            final(self).cached() == old(self).cached(),
            final(self).roots() == old(self).roots(),
            final(self).extensions() == old(self).extensions(),
            final(self).dependencies() == old(self).dependencies(),
            final(self).reload_error_list() == old(self).reload_error_list(),
    {
        proof {
            use_type_invariant(&*self);
        }
        let ghost d0 = self.dirty();
        let mut due: Vec<u128> = Vec::new();
        let mut i: usize = 0;
        while i < self.dirty.len()
            invariant
                self.wf(),
                self.dirty() == d0,
                i <= self.dirty@.len(),
                due@.no_duplicates(),
                forall|id: u128| #[trigger]
                    due@.contains(id) == (exists|j: int|
                        0 <= j < i && #[trigger] self.dirty@[j].0 == id && reload_due(
                            self.dirty@[j].1,
                            now,
                        )),
            decreases self.dirty@.len() - i,
        {
            let (id, marked) = self.dirty[i];
            let ghost before = due@;
            if now >= marked && now - marked >= HOT_RELOAD_DEBOUNCE_MS {
                proof {
                    if due@.contains(id) {
                        let j = choose|j: int|
                            0 <= j < i && #[trigger] self.dirty@[j].0 == id && reload_due(
                                self.dirty@[j].1,
                                now,
                            );
                        assert(self.dirty@[j].0.key() == self.dirty@[i as int].0.key());
                    }
                }
                due.push(id);
            }
            proof {
                assert forall|k: u128| #[trigger]
                    due@.contains(k) == (exists|j: int|
                        0 <= j < i + 1 && #[trigger] self.dirty@[j].0 == k && reload_due(
                            self.dirty@[j].1,
                            now,
                        )) by {
                    let pushed = reload_due(marked, now);
                    assert(due@ == (if pushed { before.push(id) } else { before }));
                    if due@.contains(k) {
                        let t = choose|t: int| 0 <= t < due@.len() && due@[t] == k;
                        if t < before.len() {
                            assert(before[t] == k);
                            assert(before.contains(k));
                            let j = choose|j: int|
                                0 <= j < i && #[trigger] self.dirty@[j].0 == k && reload_due(
                                    self.dirty@[j].1,
                                    now,
                                );
                            assert(0 <= j < i + 1);
                        } else {
                            assert(k == id && pushed);
                            assert(self.dirty@[i as int].0 == k);
                        }
                    }
                    if exists|j: int|
                        0 <= j < i + 1 && #[trigger] self.dirty@[j].0 == k && reload_due(
                            self.dirty@[j].1,
                            now,
                        ) {
                        let j = choose|j: int|
                            0 <= j < i + 1 && #[trigger] self.dirty@[j].0 == k && reload_due(
                                self.dirty@[j].1,
                                now,
                            );
                        if j < i {
                            assert(before.contains(k));
                            let t = choose|t: int| 0 <= t < before.len() && before[t] == k;
                            assert(due@[t] == k);
                        } else {
                            assert(k == id && pushed);
                            assert(due@[due@.len() - 1] == k);
                        }
                    }
                }
            }
            i = i + 1;
            proof {
                use_type_invariant(&*self);
            }
        }
        proof {
            assert forall|id: u128| #[trigger]
                due@.contains(id) == (d0.contains_key(id) && reload_due(d0[id], now)) by {
                if due@.contains(id) {
                    let j = choose|j: int|
                        0 <= j < self.dirty@.len() && #[trigger] self.dirty@[j].0 == id && reload_due(
                            self.dirty@[j].1,
                            now,
                        );
                    lemma_table_map_at(self.dirty@, j);
                }
                if d0.contains_key(id) && reload_due(d0[id], now) {
                    let j = choose|j: int|
                        0 <= j < self.dirty@.len() && #[trigger] self.dirty@[j].0.key() == id;
                    lemma_table_map_at(self.dirty@, j);
                    assert(self.dirty@[j].0 == id);
                }
            }
        }
        let mut k: usize = 0;
        while k < due.len()
            invariant
                self.wf(),
                k <= due@.len(),
                self.dirty() == d0.remove_keys(due@.take(k as int).to_set()),
                self.metas() == old(self).metas(),
                self.names() == old(self).names(),
                self.cached() == old(self).cached(),
                self.roots() == old(self).roots(),
                self.extensions() == old(self).extensions(),
                self.dependencies() == old(self).dependencies(),
                self.reload_error_list() == old(self).reload_error_list(),
            decreases due@.len() - k,
        {
            let id = due[k];
            proof {
                use_type_invariant(&*self);
            }
            let mut dirty_tbl = Vec::new();
            std::mem::swap(&mut dirty_tbl, &mut self.dirty);
            table_remove(&mut dirty_tbl, &id);
            self.dirty = dirty_tbl;
            proof {
                assert(due@.take(k + 1).to_set() =~= due@.take(k as int).to_set().insert(id)) by {
                    assert(due@.take(k + 1) =~= due@.take(k as int).push(id));
                    due@.take(k as int).lemma_push_to_set_commute(id);
                }
                assert(self.dirty() =~= d0.remove_keys(due@.take(k + 1).to_set()));
                assert(self.metas() =~= old(self).metas());
                assert(self.dependencies() =~= old(self).dependencies());
            }
            k = k + 1;
            proof {
                use_type_invariant(&*self);
            }
        }
        proof {
            assert(due@.take(due@.len() as int) =~= due@);
        }
        due
    }

    /// The recorded reload failures, oldest first.
    pub fn reload_errors(&self) -> (r: Vec<AssetReloadError>)
        ensures
            r@.len() == self.reload_error_list().len(),
            forall|i: int| 0 <= i < r@.len() ==> {
                &&& #[trigger] r@[i].id == self.reload_error_list()[i].id
                &&& r@[i].path@ == self.reload_error_list()[i].path@
                &&& r@[i].error == self.reload_error_list()[i].error
            },
    {
        proof {
            use_type_invariant(self);
        }
        let mut r: Vec<AssetReloadError> = Vec::new();
        let mut i: usize = 0;
        while i < self.reload_errors.len()
            invariant
                i <= self.reload_errors@.len(),
                r@.len() == i,
                forall|j: int| 0 <= j < i ==> {
                    &&& #[trigger] r@[j].id == self.reload_errors@[j].id
                    &&& r@[j].path@ == self.reload_errors@[j].path@
                    &&& r@[j].error == self.reload_errors@[j].error
                },
            decreases self.reload_errors@.len() - i,
        {
            let e = &self.reload_errors[i];
            r.push(AssetReloadError { id: e.id, path: e.path.clone(), error: e.error.duplicate() });
            i = i + 1;
        }
        r
    }

    /// Forgets the reload failure of `id`, if one is recorded.
    pub fn clear_reload_error(&mut self, id: u128)
        ensures
            final(self).reload_error_list() == without_error_of(old(self).reload_error_list(), id),
            final(self).metas() == old(self).metas(),
            final(self).names() == old(self).names(),
            final(self).cached() == old(self).cached(),
            final(self).roots() == old(self).roots(),
            final(self).extensions() == old(self).extensions(),
            final(self).dirty() == old(self).dirty(),
            final(self).dependencies() == old(self).dependencies(),
    {
        proof {
            use_type_invariant(&*self);
        }
        let ghost e0 = self.reload_errors@;
        let mut i: usize = 0;
        while i < self.reload_errors.len()
            invariant
                i <= self.reload_errors@.len(),
                self.reload_errors@ == e0,
                *self == *old(self),
                old(self).wf(),
                forall|j: int| 0 <= j < i ==> #[trigger] e0[j].id != id,
            decreases self.reload_errors@.len() - i,
        {
            if self.reload_errors[i].id == id {
                proof {
                    use_type_invariant(&*self);
                }
                let mut reload_errors_tbl = Vec::new();
                std::mem::swap(&mut reload_errors_tbl, &mut self.reload_errors);
                reload_errors_tbl.remove(i);
                self.reload_errors = reload_errors_tbl;
                proof {
                    let w = choose|j: int| 0 <= j < e0.len() && #[trigger] e0[j].id == id;
                    assert(e0[i as int].id == id);
                    if w != i {
                        if w < i {
                            assert(e0[w].id != e0[i as int].id);
                        } else {
                            assert(e0[i as int].id != e0[w].id);
                        }
                    }
                    assert(w == i);
                    assert forall|a: int, b: int|
                        0 <= a < b < self.reload_errors@.len() implies #[trigger] self.reload_errors@[a].id
                        != #[trigger] self.reload_errors@[b].id by {
                        let a0 = if a < i { a } else { a + 1 };
                        let b0 = if b < i { b } else { b + 1 };
                        assert(self.reload_errors@[a] == e0[a0]);
                        assert(self.reload_errors@[b] == e0[b0]);
                    }
                    assert(self.metas() =~= old(self).metas());
                    assert(self.dependencies() =~= old(self).dependencies());
                }
                return;
            }
            i = i + 1;
        }
        proof {
            assert(!(exists|j: int| 0 <= j < e0.len() && #[trigger] e0[j].id == id));
        }
    }

    /// Records the reload failure `reload_error`, in place of an earlier one
    /// of the same asset, as the newest.
    pub fn set_reload_error(&mut self, reload_error: AssetReloadError)
        ensures
            final(self).reload_error_list() == without_error_of(
                old(self).reload_error_list(),
                reload_error.id,
            ).push(reload_error),
            final(self).metas() == old(self).metas(),
            final(self).names() == old(self).names(),
            final(self).cached() == old(self).cached(),
            final(self).roots() == old(self).roots(),
            final(self).extensions() == old(self).extensions(),
            final(self).dirty() == old(self).dirty(),
            final(self).dependencies() == old(self).dependencies(),
    {
        proof {
            use_type_invariant(&*self);
        }
        self.clear_reload_error(reload_error.id);
        let ghost before = self.reload_errors@;
        proof {
            let e0 = old(self).reload_errors@;
            assert forall|j: int| 0 <= j < before.len() implies #[trigger] before[j].id != reload_error.id by {
                if exists|w: int| 0 <= w < e0.len() && #[trigger] e0[w].id == reload_error.id {
                    let w = choose|w: int| 0 <= w < e0.len() && #[trigger] e0[w].id == reload_error.id;
                    let j0 = if j < w { j } else { j + 1 };
                    assert(before[j] == e0[j0]);
                    assert(j0 != w);
                } else {
                    assert(before[j] == e0[j]);
                }
            }
        }
        proof {
            use_type_invariant(&*self);
        }
        let mut reload_errors_tbl = Vec::new();
        std::mem::swap(&mut reload_errors_tbl, &mut self.reload_errors);
        reload_errors_tbl.push(reload_error);
        self.reload_errors = reload_errors_tbl;
        proof {
            assert forall|a: int, b: int|
                0 <= a < b < self.reload_errors@.len() implies #[trigger] self.reload_errors@[a].id
                != #[trigger] self.reload_errors@[b].id by {
                if b == before.len() {
                    assert(self.reload_errors@[a] == before[a]);
                }
            }
        }
    }

    /// Takes the asset `id` out of every dependency set and, when `path` is a
    /// shader source (`.wgsl`), adds it to the set of each file in
    /// `includes` (the canonical paths of the files that the shader
    /// includes).
    pub fn update_asset_dependencies(&mut self, id: u128, path: &str, includes: &Vec<String>)
        ensures
            final(self).dependencies() == updated_dependencies(
                old(self).dependencies(),
                id,
                path@,
                texts(includes@),
            ),
            final(self).metas() == old(self).metas(),
            final(self).names() == old(self).names(),
            final(self).cached() == old(self).cached(),
            final(self).roots() == old(self).roots(),
            final(self).extensions() == old(self).extensions(),
            final(self).dirty() == old(self).dirty(),
            final(self).reload_error_list() == old(self).reload_error_list(),
    {
        proof {
            use_type_invariant(&*self);
        }
        let ghost d0 = self.dependencies();
        let mut kept: Vec<(String, Vec<u128>)> = Vec::new();
        proof {
            lemma_table_empty(kept@);
        }
        let mut i: usize = 0;
        while i < self.dependencies.len()
            invariant
                self.wf(),
                *self == *old(self),
                d0 == self.dependencies(),
                i <= self.dependencies@.len(),
                table_unique(kept@),
                forall|p: Seq<char>| #[trigger]
                    table_map(kept@).contains_key(p) ==> table_map(kept@)[p]@.len() > 0
                        && table_map(kept@)[p]@.no_duplicates(),
                forall|p: Seq<char>| #[trigger]
                    table_map(kept@).contains_key(p) == ((exists|j: int|
                        0 <= j < i && #[trigger] self.dependencies@[j].0@ == p)
                        && without_dependent(d0, id).contains_key(p)),
                forall|p: Seq<char>| #[trigger]
                    table_map(kept@).contains_key(p) ==> table_map(kept@)[p]@.to_set()
                        == without_dependent(d0, id)[p],
            decreases self.dependencies@.len() - i,
        {
            let entry = &self.dependencies[i];
            proof {
                lemma_table_map_at(self.dependencies@, i as int);
            }
            let rest = ids_without(&entry.1, id);
            let ghost key = entry.0@;
            let ghost k0 = kept@;
            if rest.len() > 0 {
                proof {
                    assert(rest@.to_set().contains(rest@[0]));
                    assert(without_dependent(d0, id).contains_key(key));
                }
                table_upsert(&mut kept, entry.0.clone(), rest);
            } else {
                proof {
                    assert(rest@.to_set() =~= Set::<u128>::empty());
                }
            }
            proof {
                assert forall|p: Seq<char>| #[trigger]
                    table_map(kept@).contains_key(p) == ((exists|j: int|
                        0 <= j < i + 1 && #[trigger] self.dependencies@[j].0@ == p)
                        && without_dependent(d0, id).contains_key(p)) by {
                    if exists|j: int| 0 <= j < i + 1 && #[trigger] self.dependencies@[j].0@ == p {
                        let j = choose|j: int| 0 <= j < i + 1 && #[trigger] self.dependencies@[j].0@ == p;
                        if j == i {
                            assert(p == key);
                        }
                    }
                    if p == key {
                        assert(self.dependencies@[i as int].0@ == p);
                    }
                    if table_map(k0).contains_key(p) {
                        let j = choose|j: int| 0 <= j < i && #[trigger] self.dependencies@[j].0@ == p;
                        assert(0 <= j < i + 1);
                    }
                }
            }
            i = i + 1;
            proof {
                use_type_invariant(&*self);
            }
        }
        proof {
            assert forall|p: Seq<char>| #[trigger] without_dependent(d0, id).contains_key(p) implies (exists|j: int|
                0 <= j < self.dependencies@.len() && #[trigger] self.dependencies@[j].0@ == p) by {
                let j = choose|j: int| 0 <= j < self.dependencies@.len() && #[trigger] self.dependencies@[j].0.key() == p;
            }
        }
        self.dependencies = kept;
        proof {
            assert(self.dependencies() =~= without_dependent(d0, id));
            assert(self.metas() =~= old(self).metas());
        }
        let ext = path_extension(path);
        let is_shader = match &ext {
            Some(e) => same_text(e.as_str(), "wgsl"),
            None => false,
        };
        if !is_shader {
            return;
        }
        let ghost d1 = self.dependencies();
        let mut k: usize = 0;
        while k < includes.len()
            invariant
                self.wf(),
                k <= includes@.len(),
                self.dependencies() == with_dependent(d1, texts(includes@).take(k as int), id),
                self.metas() == old(self).metas(),
                self.names() == old(self).names(),
                self.cached() == old(self).cached(),
                self.roots() == old(self).roots(),
                self.extensions() == old(self).extensions(),
                self.dirty() == old(self).dirty(),
                self.reload_error_list() == old(self).reload_error_list(),
            decreases includes@.len() - k,
        {
            let dep = &includes[k];
            let ghost before = self.dependencies();
            let grown = match table_get(&self.dependencies, dep) {
                Some(ids) => {
                    proof {
                        assert(before.contains_key(dep@) && before[dep@] == ids@.to_set());
                    }
                    ids_with(ids, id)
                },
                None => {
                    let empty: Vec<u128> = Vec::new();
                    proof {
                        assert(empty@.to_set() =~= Set::<u128>::empty());
                        assert(!before.contains_key(dep@));
                    }
                    ids_with(&empty, id)
                },
            };
            let ghost gs = grown@.to_set();
            proof {
                assert(gs == (if before.contains_key(dep@) {
                    before[dep@]
                } else {
                    Set::<u128>::empty()
                }).insert(id));
            }
            proof {
                use_type_invariant(&*self);
            }
            let mut dependencies_tbl = Vec::new();
            std::mem::swap(&mut dependencies_tbl, &mut self.dependencies);
            table_upsert(&mut dependencies_tbl, dep.clone(), grown);
            self.dependencies = dependencies_tbl;
            proof {
                assert forall|p: Seq<char>| #[trigger] self.dependencies().contains_key(p) == (before.contains_key(p) || p == dep@) by {}
                assert forall|p: Seq<char>| #[trigger] self.dependencies().contains_key(p) && p != dep@ implies self.dependencies()[p] == before[p] by {}
                assert(self.dependencies()[dep@] == gs);
                let t0 = texts(includes@).take(k as int);
                let t1 = texts(includes@).take(k + 1);
                assert(t1 =~= t0.push(dep@));
                assert forall|p: Seq<char>| #[trigger] t1.contains(p) == (t0.contains(p) || p == dep@) by {
                    if t1.contains(p) {
                        let j = choose|j: int| 0 <= j < t1.len() && t1[j] == p;
                        if j < t0.len() {
                            assert(t0[j] == p);
                        }
                    }
                    if t0.contains(p) {
                        let j = choose|j: int| 0 <= j < t0.len() && t0[j] == p;
                        assert(t1[j] == p);
                    }
                    if p == dep@ {
                        assert(t1[k as int] == p);
                    }
                }
                let target = with_dependent(d1, t1, id);
                assert forall|p: Seq<char>| #[trigger] self.dependencies().contains_key(p) == target.contains_key(p) by {}
                assert forall|p: Seq<char>| #[trigger] self.dependencies().contains_key(p) implies self.dependencies()[p] == target[p] by {
                    if p == dep@ {
                        if t0.contains(p) {
                            assert(before[p] == (if d1.contains_key(p) {
                                d1[p]
                            } else {
                                Set::<u128>::empty()
                            }).insert(id));
                            assert(before[p].insert(id) =~= before[p]);
                        }
                    } else {
                        assert(t1.contains(p) == t0.contains(p));
                    }
                }
                assert(self.dependencies() =~= target);
                assert(self.metas() =~= old(self).metas());
            }
            k = k + 1;
            proof {
                use_type_invariant(&*self);
            }
        }
        proof {
            assert(texts(includes@).take(includes@.len() as int) =~= texts(includes@));
        }
    }

    /// The id of the asset at the file `path`: under the first asset root
    /// that holds it, the path relative to the root without extension names
    /// it.
    pub fn asset_id_from_path(&self, path: &str) -> (r: Option<u128>)
        ensures
            r == id_from_path(self.roots(), self.names(), path@),
    {
        proof {
            use_type_invariant(self);
        }
        let mut i: usize = 0;
        proof {
            assert(self.roots().skip(0) =~= self.roots());
            reveal_strlit("");
        }
        while i < self.asset_paths.len()
            invariant
                self.wf(),
                ""@ == Seq::<char>::empty(),
                i <= self.asset_paths@.len(),
                id_from_path(self.roots(), self.names(), path@) == id_from_path(
                    self.roots().skip(i as int),
                    self.names(),
                    path@,
                ),
            decreases self.asset_paths@.len() - i,
        {
            let root = &self.asset_paths[i];
            let ghost rest = self.roots().skip(i as int);
            proof {
                assert(rest[0] == root@);
                assert(rest.skip(1) =~= self.roots().skip(i + 1));
            }
            let holds = match common_path_of(root.as_str(), path) {
                Some(prefix) => paths_equal(prefix.as_str(), root.as_str()),
                None => false,
            };
            if holds {
                proof {
                    assert(root_holds(rest[0], path@));
                    assert(id_from_path(rest, self.names(), path@) == lookup_under(
                        self.names(),
                        rest[0],
                        path@,
                    ));
                }
                return match path_relative_to(path, root.as_str()) {
                    Some(rel) => {
                        let stem = with_relative_extension(rel.as_str(), "");
                        let key = PathKey { text: stem };
                        match table_get(&self.names, &key) {
                            Some(id) => Some(*id),
                            None => None,
                        }
                    },
                    None => None,
                };
            }
            proof {
                assert(!root_holds(rest[0], path@));
            }
            i = i + 1;
        }
        None
    }

    /// Marks the asset at `path` and the assets that depend on the file
    /// (known by its canonical path `dependency_path`) as changed at `now`.
    pub fn mark_path_dirty(&mut self, path: &str, dependency_path: &str, now: u64)
        ensures
            final(self).dirty() == (match id_from_path(old(self).roots(), old(self).names(), path@) {
                Some(id) => old(self).dirty().insert(id, now),
                None => old(self).dirty(),
            }).union_prefer_right(
                Map::new(
                    |id: u128|
                        old(self).dependencies().contains_key(dependency_path@) && old(
                            self,
                        ).dependencies()[dependency_path@].contains(id),
                    |id: u128| now,
                ),
            ),
            final(self).metas() == old(self).metas(),
            final(self).names() == old(self).names(),
            final(self).cached() == old(self).cached(),
            final(self).roots() == old(self).roots(),
            final(self).extensions() == old(self).extensions(),
            final(self).dependencies() == old(self).dependencies(),
            final(self).reload_error_list() == old(self).reload_error_list(),
    {
        proof {
            use_type_invariant(&*self);
        }
        match self.asset_id_from_path(path) {
            Some(id) => self.mark_asset_dirty(id, now),
            None => {},
        }
        proof {
            use_type_invariant(&*self);
        }
        let ghost d1 = self.dirty();
        let ghost deps = old(self).dependencies();
        let dependents = match table_get(&self.dependencies, &dependency_path.to_owned()) {
            Some(ids) => copy_ids(ids),
            None => Vec::new(),
        };
        proof {
            assert forall|id: u128| #[trigger] dependents@.contains(id) == (deps.contains_key(
                dependency_path@,
            ) && deps[dependency_path@].contains(id)) by {}
        }
        let mut k: usize = 0;
        while k < dependents.len()
            invariant
                self.wf(),
                k <= dependents@.len(),
                self.dirty() == d1.union_prefer_right(
                    Map::new(|id: u128| dependents@.take(k as int).contains(id), |id: u128| now),
                ),
                self.metas() == old(self).metas(),
                self.names() == old(self).names(),
                self.cached() == old(self).cached(),
                self.roots() == old(self).roots(),
                self.extensions() == old(self).extensions(),
                self.dependencies() == old(self).dependencies(),
                self.reload_error_list() == old(self).reload_error_list(),
            decreases dependents@.len() - k,
        {
            let id = dependents[k];
            self.mark_asset_dirty(id, now);
            proof {
                let t0 = dependents@.take(k as int);
                let t1 = dependents@.take(k + 1);
                assert(t1 =~= t0.push(id));
                assert forall|x: u128| #[trigger] t1.contains(x) == (t0.contains(x) || x == id) by {
                    if t1.contains(x) {
                        let j = choose|j: int| 0 <= j < t1.len() && t1[j] == x;
                        if j < t0.len() {
                            assert(t0[j] == x);
                        }
                    }
                    if t0.contains(x) {
                        let j = choose|j: int| 0 <= j < t0.len() && t0[j] == x;
                        assert(t1[j] == x);
                    }
                    if x == id {
                        assert(t1[k as int] == x);
                    }
                }
                assert(self.dirty() =~= d1.union_prefer_right(
                    Map::new(|x: u128| t1.contains(x), |x: u128| now),
                ));
            }
            k = k + 1;
            proof {
                use_type_invariant(&*self);
            }
        }
        proof {
            assert(dependents@.take(dependents@.len() as int) =~= dependents@);
            assert(self.dirty() =~= d1.union_prefer_right(
                Map::new(
                    |id: u128| deps.contains_key(dependency_path@) && deps[dependency_path@].contains(id),
                    |id: u128| now,
                ),
            ));
        }
    }

    /// Records what the metadata file `meta_path` under the root
    /// `asset_root` holds: the main entry, named by the file's relative path,
    /// with the sub-assets as children, and each sub-asset under its local
    /// name and its canonical name. The result is the metadata as recorded.
    pub fn load_meta_file(&mut self, asset_root: &str, meta_path: &str, meta: AssetMetaData) -> (r:
        AssetMetaData)
        requires
            relative_to_result(meta_path@, asset_root@) is Some,
        ensures
            r.main@ == loaded_main(meta.main@, meta_views(meta.inner@)),
            meta_views(r.inner@) == localized_all(meta_views(meta.inner@), meta.main.name@, meta.main.id),
            final(self).metas() == loaded_metas(old(self).metas(), meta.main@, meta_views(meta.inner@)),
            final(self).names() == loaded_names(
                old(self).names(),
                asset_root@,
                meta_path@,
                meta.main@,
                meta_views(meta.inner@),
            ),
            final(self).cached() == old(self).cached(),
            final(self).same_sources(&*old(self)),
    {
        proof {
            use_type_invariant(&*self);
        }
        let AssetMetaData { main, inner } = meta;
        let ghost inner0 = meta_views(inner@);
        let mut main = main;
        let mut ids: Vec<u128> = Vec::new();
        let mut i: usize = 0;
        while i < inner.len()
            invariant
                i <= inner@.len(),
                ids@ == meta_ids(meta_views(inner@)).take(i as int),
            decreases inner@.len() - i,
        {
            ids.push(inner[i].id);
            i = i + 1;
            proof {
                assert(ids@ =~= meta_ids(meta_views(inner@)).take(i as int));
            }
        }
        proof {
            assert(meta_ids(meta_views(inner@)).take(inner@.len() as int) =~= meta_ids(
                meta_views(inner@),
            ));
        }
        main.children = ids;
        self.set_meta(main.duplicate());
        let rel = match path_relative_to(meta_path, asset_root) {
            Some(rel) => rel,
            None => {
                proof {
                    assert(false);
                }
                String::new()
            },
        };
        proof {
            reveal_strlit("");
            assert(""@ =~= Seq::<char>::empty());
        }
        let normalized = normalize_relative(rel.as_str());
        let stem = with_relative_extension(normalized.as_str(), "");
        proof {
            use_type_invariant(&*self);
        }
        let mut names_tbl = Vec::new();
        std::mem::swap(&mut names_tbl, &mut self.names);
        table_upsert(&mut names_tbl, PathKey { text: stem }, main.id);
        self.names = names_tbl;
        proof {
            assert(self.metas() =~= old(self).metas().insert(main.id, main@));
        }
        let ghost m1 = self.metas();
        let ghost n1 = self.names();
        let mut out: Vec<AssetMeta> = Vec::new();
        let mut k: usize = 0;
        let mut rest = inner;
        let ghost all = meta_views(rest@);
        let ghost done = localized_all(all, main.name@, main.id);
        while k < rest.len()
            invariant
                self.wf(),
                k <= rest@.len(),
                meta_views(rest@) == all,
                all == inner0,
                done == localized_all(all, main.name@, main.id),
                meta_views(out@) == done.take(k as int),
                self.metas() == insert_entries(m1, done.take(k as int)),
                self.names() == insert_sub_names(n1, done.take(k as int), main.name@),
                self.cached() == old(self).cached(),
                self.same_sources(&*old(self)),
            decreases rest@.len() - k,
        {
            let c = &rest[k];
            let local = Self::local_sub_asset_name(main.name.as_str(), c.name.as_str());
            let child = AssetMeta {
                id: c.id,
                name: local,
                display_name: c.display_name.clone(),
                type_uuid: c.type_uuid,
                parent: Some(main.id),
                children: copy_ids(&c.children),
                path: copy_opt_string(&c.path),
            };
            proof {
                assert(child@ == done[k as int]);
                assert(done.take(k + 1).drop_last() =~= done.take(k as int));
            }
            let canonical = Self::sub_asset_name(main.name.as_str(), child.name.as_str());
            let child_id = child.id;
            self.set_meta(child.duplicate());
            self.set_name(canonical.as_str(), child_id);
            let ghost before = out@;
            out.push(child);
            proof {
                assert(meta_views(out@) =~= done.take(k + 1));
            }
            k = k + 1;
            proof {
                use_type_invariant(&*self);
            }
        }
        proof {
            assert(done.take(rest@.len() as int) =~= done);
            assert(meta_views(out@) =~= done);
        }
        AssetMetaData { main, inner: out }
    }

    /// Records the asset file `path` under the root `asset_root`. With
    /// `stored`, the parsed content of its metadata file `meta_path`, the
    /// entry is read from there; without, a new entry with the id `fresh_id`
    /// is made and returned, to be stored. The entry gets the type of the
    /// file's extension and the absolute path `absolute_path`; `includes` are
    /// the files that a shader source includes.
    pub fn build_asset_meta(
        &mut self,
        asset_root: &str,
        path: &str,
        meta_path: &str,
        absolute_path: &str,
        stored: Option<AssetMetaData>,
        fresh_id: u128,
        includes: &Vec<String>,
    ) -> (r: Option<AssetMetaData>)
        requires
            build_admissible(asset_root@, path@, meta_path@, stored is Some),
        ensures
            final(self).build_outcome(
                &*old(self),
                asset_root@,
                path@,
                meta_path@,
                absolute_path@,
                stored,
                fresh_id,
                texts(includes@),
                r,
            ),
    {
        proof {
            use_type_invariant(&*self);
            reveal_strlit("");
            assert(""@ =~= Seq::<char>::empty());
        }
        let ghost stored0 = stored;
        let (mut meta, to_write) = match stored {
            Some(data) => {
                let loaded = self.load_meta_file(asset_root, meta_path, data);
                (loaded.main, None)
            },
            None => {
                let display_name = match path_file_stem(path) {
                    Some(stem) => stem,
                    None => String::new(),
                };
                let rel = match path_relative_to(path, asset_root) {
                    Some(rel) => rel,
                    None => {
                        proof {
                            assert(false);
                        }
                        String::new()
                    },
                };
                let name = with_relative_extension(rel.as_str(), "");
                let meta = AssetMeta {
                    id: fresh_id,
                    name,
                    display_name,
                    type_uuid: 0,
                    parent: None,
                    children: Vec::new(),
                    path: None,
                };
                let written = AssetMetaData { main: meta.duplicate(), inner: Vec::new() };
                (meta, Some(written))
            },
        };
        let ghost m1 = self.metas();
        let ghost n1 = self.names();
        let ext = match path_extension(path) {
            Some(e) => e,
            None => {
                proof {
                    assert(false);
                }
                String::new()
            },
        };
        meta.type_uuid = match self.asset_type_uuid_from_ext(ext.as_str()) {
            Some(t) => t,
            None => 0,
        };
        meta.path = Some(absolute_path.to_owned());
        let id = meta.id;
        self.set_meta(meta);
        let rel = match path_relative_to(path, asset_root) {
            Some(rel) => rel,
            None => {
                proof {
                    assert(false);
                }
                String::new()
            },
        };
        let normalized = normalize_relative(rel.as_str());
        let stem = with_relative_extension(normalized.as_str(), "");
        proof {
            use_type_invariant(&*self);
        }
        let mut names_tbl = Vec::new();
        std::mem::swap(&mut names_tbl, &mut self.names);
        table_upsert(&mut names_tbl, PathKey { text: stem }, id);
        self.names = names_tbl;
        proof {
            assert(self.metas() =~= m1.insert(id, self.metas()[id]));
        }
        self.update_asset_dependencies(id, path, includes);
        to_write
    }

    /// Records the asset file `path` as `build_asset_meta` does, when it can
    /// be recorded (see `build_admissible`); `None` leaves the registry
    /// unchanged when it cannot.
    pub fn try_build_asset_meta(
        &mut self,
        asset_root: &str,
        path: &str,
        meta_path: &str,
        absolute_path: &str,
        stored: Option<AssetMetaData>,
        fresh_id: u128,
        includes: &Vec<String>,
    ) -> (r: Option<Option<AssetMetaData>>)
        ensures
            match r {
                Some(w) => build_admissible(asset_root@, path@, meta_path@, stored is Some)
                    && final(self).build_outcome(
                    &*old(self),
                    asset_root@,
                    path@,
                    meta_path@,
                    absolute_path@,
                    stored,
                    fresh_id,
                    texts(includes@),
                    w,
                ),
                None => !build_admissible(asset_root@, path@, meta_path@, stored is Some)
                    && *final(self) == *old(self),
            },
    {
        proof {
            use_type_invariant(&*self);
        }
        if path_extension(path).is_none() || path_relative_to(path, asset_root).is_none() {
            return None;
        }
        if stored.is_some() && path_relative_to(meta_path, asset_root).is_none() {
            return None;
        }
        Some(
            self.build_asset_meta(
                asset_root,
                path,
                meta_path,
                absolute_path,
                stored,
                fresh_id,
                includes,
            ),
        )
    }

    /// The id that the name `name` stands for, or a `NotFound` error naming
    /// it.
    pub fn resolve_name(&self, name: &str) -> (r: Result<u128, AssetError>)
        ensures
            match r {
                Ok(id) => self.names().contains_key(name_key(name@)) && id == self.names()[name_key(
                    name@,
                )],
                Err(e) => !self.names().contains_key(name_key(name@)) && name_error(
                    e,
                    AssetErrorKind::NotFound,
                    name@,
                ),
            },
    {
        proof {
            use_type_invariant(self);
        }
        match self.asset_id(name) {
            Some(id) => Ok(id),
            None => Err(AssetError::not_found().with_source(Self::quoted_name_text(name))),
        }
    }

    /// The id of the asset at `path`, or a `NotFound` error with the path
    /// (and the expected type, when one is given).
    pub fn resolve_path(&self, path: &str, asset_type: Option<&'static str>) -> (r: Result<
        u128,
        AssetError,
    >)
        ensures
            match r {
                Ok(id) => id_from_path(self.roots(), self.names(), path@) == Some(id),
                Err(e) => {
                    &&& id_from_path(self.roots(), self.names(), path@) is None
                    &&& e.kind == AssetErrorKind::NotFound
                    &&& e.path matches Some(p) && p@ == path@
                    &&& e.asset_type == asset_type
                    &&& e.source is None
                },
            },
    {
        proof {
            use_type_invariant(self);
        }
        match self.asset_id_from_path(path) {
            Some(id) => Ok(id),
            None => {
                let e = AssetError::not_found().with_path(path);
                match asset_type {
                    Some(t) => Err(e.with_type(t)),
                    None => Err(e),
                }
            },
        }
    }

    /// The first step of loading the asset `id`: the parent that must be
    /// loaded before it, if any; a `NotFound` error naming the id when it
    /// has no entry.
    pub fn load_parent(&self, id: u128) -> (r: Result<Option<u128>, AssetError>)
        ensures
            match r {
                Ok(parent) => self.metas().contains_key(id) && parent == self.metas()[id].parent,
                Err(e) => !self.metas().contains_key(id) && not_found_with_source(e, id_source(id)),
            },
    {
        proof {
            use_type_invariant(self);
        }
        match table_get(&self.meta, &id) {
            Some(m) => Ok(m.parent),
            None => {
                let mut text = String::new();
                string_push_str(&mut text, "asset id ");
                let uuid = uuid_string(id);
                string_push_str(&mut text, uuid.as_str());
                Err(AssetError::not_found().with_source(text))
            },
        }
    }

    /// Where a typed load of the asset `id` of type `type_uuid` takes its
    /// value from: `None` for the value held in memory when it has that
    /// type, else the source path with one of `extensions`; a `NotFound`
    /// error with the type name when there is none.
    pub fn load_source(
        &self,
        id: u128,
        type_uuid: u128,
        asset_type: &'static str,
        extensions: &[&str],
    ) -> (r: Result<Option<String>, AssetError>)
        ensures
            match r {
                Ok(None) => self.cached().contains_key(id) && self.cached()[id] == type_uuid,
                Ok(Some(p)) => {
                    &&& !(self.cached().contains_key(id) && self.cached()[id] == type_uuid)
                    &&& self.metas().contains_key(id)
                    &&& self.metas()[id].path == Some(p@)
                    &&& lists_text(extensions@, extension_or_empty(p@))
                },
                Err(e) => {
                    &&& !(self.cached().contains_key(id) && self.cached()[id] == type_uuid)
                    &&& !(self.metas().contains_key(id) && (self.metas()[id].path matches Some(p)
                        && lists_text(extensions@, extension_or_empty(p))))
                    &&& e == (AssetError {
                        kind: AssetErrorKind::NotFound,
                        path: None,
                        asset_type: Some(asset_type),
                        source: None,
                    })
                },
            },
    {
        proof {
            use_type_invariant(self);
        }
        match table_get(&self.cached, &id) {
            Some(t) => {
                if *t == type_uuid {
                    return Ok(None);
                }
            },
            None => {},
        }
        match self.asset_path(id, extensions) {
            Some(p) => Ok(Some(p)),
            None => Err(AssetError::not_found().with_type(asset_type)),
        }
    }

    /// Where an untyped load of the asset `id` takes its value from: `None`
    /// for the value held in memory, else its source path and type; a
    /// `NotFound` error naming the asset when it has no source path. The
    /// asset must have an entry (see `load_parent`).
    pub fn load_dyn_source(&self, id: u128) -> (r: Result<Option<(String, u128)>, AssetError>)
        requires
            self.metas().contains_key(id),
        ensures
            match r {
                Ok(None) => self.cached().contains_key(id),
                Ok(Some((p, t))) => {
                    &&& !self.cached().contains_key(id)
                    &&& self.metas()[id].path == Some(p@)
                    &&& t == self.metas()[id].type_uuid
                },
                Err(e) => {
                    &&& !self.cached().contains_key(id)
                    &&& self.metas()[id].path is None
                    &&& not_found_with_source(e, path_source(self.metas()[id].name))
                },
            },
    {
        proof {
            use_type_invariant(self);
        }
        if table_get(&self.cached, &id).is_some() {
            return Ok(None);
        }
        let m = match table_get(&self.meta, &id) {
            Some(m) => m,
            None => {
                proof {
                    assert(false);
                }
                return Ok(None);
            },
        };
        proof {
            assert(self.metas()[id] == m@);
        }
        match &m.path {
            Some(p) => Ok(Some((p.clone(), m.type_uuid))),
            None => {
                let mut text = String::new();
                string_push_str(&mut text, "path for asset `");
                string_push_str(&mut text, m.name.as_str());
                string_push_str(&mut text, "`");
                Err(AssetError::not_found().with_source(text))
            },
        }
    }

    /// Records that the asset `id` was loaded from its file as a value of
    /// type `type_uuid`, with the sub-assets `sub_assets`. The result is
    /// the metadata to store beside the file, as `load_sub_asset_meta` gives
    /// it.
    pub fn finish_load(&mut self, id: u128, type_uuid: u128, sub_assets: Vec<u128>) -> (r: Option<
        AssetMetaData,
    >)
        ensures
            final(self).metas() == Map::new(
                |k: u128| old(self).metas().contains_key(k),
                |k: u128| linked_meta(old(self).metas()[k], k, id, sub_assets@),
            ),
            final(self).cached() == old(self).cached().insert(id, type_uuid),
            final(self).names() == old(self).names(),
            final(self).same_sources(&*old(self)),
            match r {
                Some(d) => {
                    &&& old(self).metas().contains_key(id)
                    &&& old(self).metas()[id].path is Some
                    &&& d.main@ == old(self).metas()[id]
                    &&& meta_views(d.inner@) == present_metas(old(self).metas(), sub_assets@)
                },
                None => !(old(self).metas().contains_key(id) && old(self).metas()[id].path is Some),
            },
    {
        proof {
            use_type_invariant(&*self);
        }
        let to_write = self.load_sub_asset_meta(id, sub_assets);
        self.set_cached(id, type_uuid);
        to_write
    }

    /// The file from which the asset `id` is hot-reloaded, with its type:
    /// only an asset with a source path whose value is held in memory is.
    pub fn reload_target(&self, id: u128) -> (r: Option<(String, u128)>)
        ensures
            match r {
                Some((p, t)) => {
                    &&& self.metas().contains_key(id)
                    &&& self.metas()[id].path == Some(p@)
                    &&& t == self.metas()[id].type_uuid
                    &&& self.cached().contains_key(id)
                },
                None => !(self.metas().contains_key(id) && self.metas()[id].path is Some
                    && self.cached().contains_key(id)),
            },
    {
        proof {
            use_type_invariant(self);
        }
        let m = match table_get(&self.meta, &id) {
            Some(m) => m,
            None => return None,
        };
        proof {
            assert(self.metas()[id] == m@);
        }
        let p = match &m.path {
            Some(p) => p,
            None => return None,
        };
        if table_get(&self.cached, &id).is_none() {
            return None;
        }
        Some((p.clone(), m.type_uuid))
    }

    /// Records the outcome of hot-reloading the asset `id` from `path`: on
    /// success, its sub-assets are attached, its shader dependencies renewed
    /// (`includes`) and its failure forgotten, and the result is the
    /// metadata to store; on failure, the failure is recorded.
    pub fn finish_reload(
        &mut self,
        id: u128,
        path: &str,
        outcome: Result<Vec<u128>, AssetError>,
        includes: &Vec<String>,
    ) -> (r: Option<AssetMetaData>)
        ensures
            final(self).names() == old(self).names(),
            final(self).cached() == old(self).cached(),
            final(self).roots() == old(self).roots(),
            final(self).extensions() == old(self).extensions(),
            final(self).dirty() == old(self).dirty(),
            match outcome {
                Ok(sub_assets) => {
                    &&& final(self).metas() == Map::new(
                        |k: u128| old(self).metas().contains_key(k),
                        |k: u128| linked_meta(old(self).metas()[k], k, id, sub_assets@),
                    )
                    &&& final(self).dependencies() == updated_dependencies(
                        old(self).dependencies(),
                        id,
                        path@,
                        texts(includes@),
                    )
                    &&& final(self).reload_error_list() == without_error_of(
                        old(self).reload_error_list(),
                        id,
                    )
                    &&& match r {
                        Some(d) => old(self).metas().contains_key(id) && old(self).metas()[id].path is Some
                            && d.main@ == old(self).metas()[id] && meta_views(d.inner@)
                            == present_metas(old(self).metas(), sub_assets@),
                        None => !(old(self).metas().contains_key(id) && old(self).metas()[id].path is Some),
                    }
                },
                Err(e) => {
                    &&& final(self).metas() == old(self).metas()
                    &&& final(self).dependencies() == old(self).dependencies()
                    &&& final(self).reload_error_list().len() >= 1
                    &&& final(self).reload_error_list().drop_last() == without_error_of(
                        old(self).reload_error_list(),
                        id,
                    )
                    &&& final(self).reload_error_list().last().id == id
                    &&& final(self).reload_error_list().last().path@ == path@
                    &&& final(self).reload_error_list().last().error == e
                    &&& r is None
                },
            },
    {
        proof {
            use_type_invariant(&*self);
        }
        match outcome {
            Ok(sub_assets) => {
                let to_write = self.load_sub_asset_meta(id, sub_assets);
                self.update_asset_dependencies(id, path, includes);
                self.clear_reload_error(id);
                to_write
            },
            Err(error) => {
                let ghost e = error;
                self.set_reload_error(AssetReloadError { id, path: path.to_owned(), error });
                proof {
                    assert(self.reload_error_list().drop_last() =~= without_error_of(
                        old(self).reload_error_list(),
                        id,
                    ));
                }
                None
            },
        }
    }

    /// The file to which the asset `id` is written back: its source path,
    /// when its value is held in memory.
    pub fn persist_target(&self, id: u128) -> (r: Option<String>)
        ensures
            match r {
                Some(p) => self.metas().contains_key(id) && self.metas()[id].path == Some(p@)
                    && self.cached().contains_key(id),
                None => !(self.metas().contains_key(id) && self.metas()[id].path is Some
                    && self.cached().contains_key(id)),
            },
    {
        proof {
            use_type_invariant(self);
        }
        match self.reload_target(id) {
            Some((p, _)) => Some(p),
            None => None,
        }
    }

    /// The primary asset root.
    pub fn root_path(&self) -> (r: &String)
        requires
            self.roots().len() > 0,
        ensures
            r@ == self.roots()[0],
    {
        &self.asset_paths[0]
    }

    /// All asset roots, the primary one first.
    pub fn asset_paths(&self) -> (r: &Vec<String>)
        ensures
            texts(r@) == self.roots(),
    {
        &self.asset_paths
    }

    /// The entry of the asset at the file `path`, if any.
    pub fn asset_meta_from_path(&self, path: &str) -> (r: Option<AssetMeta>)
        ensures
            match r {
                Some(m) => id_from_path(self.roots(), self.names(), path@) matches Some(id)
                    && self.metas().contains_key(id) && m@ == self.metas()[id],
                None => match id_from_path(self.roots(), self.names(), path@) {
                    Some(id) => !self.metas().contains_key(id),
                    None => true,
                },
            },
    {
        proof {
            use_type_invariant(self);
        }
        match self.asset_id_from_path(path) {
            Some(id) => self.asset_meta_from_id(id),
            None => None,
        }
    }

    /// The name of the asset at the file `path`, if any (empty when the id
    /// found has no entry).
    pub fn asset_name_from_path(&self, path: &str) -> (r: Option<String>)
        ensures
            match r {
                Some(n) => id_from_path(self.roots(), self.names(), path@) matches Some(id) && n@ == (
                if self.metas().contains_key(id) {
                    self.metas()[id].name
                } else {
                    Seq::<char>::empty()
                }),
                None => id_from_path(self.roots(), self.names(), path@) is None,
            },
    {
        proof {
            use_type_invariant(self);
        }
        match self.asset_id_from_path(path) {
            Some(id) => Some(self.asset_name(id)),
            None => None,
        }
    }

    /// Whether a value of the asset `id` is held in memory with the type
    /// `type_uuid`.
    pub fn is_loaded_as(&self, id: u128, type_uuid: u128) -> (r: bool)
        ensures
            r == (self.cached().contains_key(id) && self.cached()[id] == type_uuid),
    {
        proof {
            use_type_invariant(self);
        }
        match table_get(&self.cached, &id) {
            Some(t) => *t == type_uuid,
            None => false,
        }
    }

    /// The canonical name of the sub-asset `local_name` of the asset named
    /// `parent_name`: the normalized parent name joined with the local name,
    /// normalized.
    pub fn sub_asset_name(parent_name: &str, local_name: &str) -> (r: String)
        ensures
            r@ == sub_asset_name_spec(parent_name@, local_name@),
    {
        let parent = normalize_relative(parent_name);
        let joined = push_relative(parent.as_str(), local_name);
        normalize_relative(joined.as_str())
    }
}

} // verus!
