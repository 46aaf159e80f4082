use vstd::prelude::*;
use crate::asset_registry::{AssetRegistry, AssetMetaView, copy_ids, id_from_path, opt_text};
use crate::asset_paths::{path_extension, path_extension_result};
use crate::json_refs::{
    JsonValue, referenced_asset_ids, references_assets, references_assets_spec, referenced_ids_of,
    strictly_increasing,
};
use crate::thumbnail_key::ThumbnailRequest;
use crate::thumbnail_request::ThumbnailAssetTypes;
use crate::digest::{
    sha1_of, sha1_digest, be_bytes, le_bytes, le_value, push_be_bytes, push_le_bytes, le_u64_prefix,
};
use crate::table::{TableKey, table_unique, table_map, table_get, table_upsert, lemma_table_empty};

verus! {

/// `x` with its two 32-bit halves swapped (`u64::rotate_left(x, 32)`).
pub open spec fn swap_halves(x: u64) -> u64 {
    (x << 32u64) | (x >> 32u64)
}

/// The version of a source file from its modification time (seconds and
/// nanoseconds since the Unix epoch, when known) and its length in bytes:
/// the time in nanoseconds, wrapped to 64 bits (zero when unknown), combined
/// by exclusive or with the length's halves swapped.
pub open spec fn file_version_of(modified: Option<(u64, u32)>, len: u64) -> u64 {
    let nanos: u64 = match modified {
        Some((secs, subsec_nanos)) => ((secs * 1_000_000_000 + subsec_nanos) % 0x1_0000_0000_0000_0000) as u64,
        None => 0,
    };
    nanos ^ swap_halves(len)
}

/// The version of a source file whose modification time is `modified` and
/// whose length is `len` (see `file_version_of`).
pub fn file_source_version(modified: Option<(u64, u32)>, len: u64) -> (r: u64)
    ensures
        r == file_version_of(modified, len),
{
    let nanos: u64 = match modified {
        Some((secs, subsec_nanos)) => {
            let wide: u128 = (secs as u128) * 1_000_000_000u128 + (subsec_nanos as u128);
            (wide % 0x1_0000_0000_0000_0000u128) as u64
        },
        None => 0,
    };
    nanos ^ ((len << 32u64) | (len >> 32u64))
}

/// What is known of the source files of assets: for each asset, the version
/// of its file (from its size and modification time) and the assets that the
/// file names.
pub struct SourceFacts {
    entries: Vec<(u128, (u64, Vec<u128>))>,
}

impl SourceFacts {
    /// The facts by asset id.
    pub closed spec fn facts(&self) -> Map<u128, (u64, Seq<u128>)> {
        Map::new(
            |id: u128| table_map(self.entries@).contains_key(id),
            |id: u128| (table_map(self.entries@)[id].0, table_map(self.entries@)[id].1@),
        )
    }

    /// No asset has two entries.
    #[verifier::type_invariant]
    spec fn entries_unique(&self) -> bool {
        table_unique(self.entries@)
    }

    /// No facts.
    pub fn new() -> (r: SourceFacts)
        ensures
            r.facts() == Map::<u128, (u64, Seq<u128>)>::empty(),
    {
        let r = SourceFacts { entries: Vec::new() };
        proof {
            lemma_table_empty(r.entries@);
            assert(r.facts() =~= Map::<u128, (u64, Seq<u128>)>::empty());
        }
        r
    }

    /// Records that the file of asset `id` has the version `file_version`
    /// and names the assets `references`.
    pub fn record(&mut self, id: u128, file_version: u64, references: Vec<u128>)
        ensures
            final(self).facts() == old(self).facts().insert(id, (file_version, references@)),
    {
        proof {
            use_type_invariant(&*self);
        }
        let ghost refs = references@;
        let mut entries: Vec<(u128, (u64, Vec<u128>))> = Vec::new();
        std::mem::swap(&mut entries, &mut self.entries);
        table_upsert(&mut entries, id, (file_version, references));
        self.entries = entries;
        proof {
            assert(self.facts() =~= old(self).facts().insert(id, (file_version, refs)));
        }
    }

    /// The facts of `id`: its file version and the assets its file names;
    /// nothing known counts as version zero naming no asset.
    pub fn fact(&self, id: u128) -> (r: (u64, Vec<u128>))
        ensures
            (r.0, r.1@) == fact_of(self.facts(), id),
    {
        proof {
            use_type_invariant(self);
        }
        match table_get(&self.entries, &id) {
            Some(f) => (f.0, copy_ids(&f.1)),
            None => (0, Vec::new()),
        }
    }
}

/// The facts of `id`, or version zero naming no asset.
pub open spec fn fact_of(facts: Map<u128, (u64, Seq<u128>)>, id: u128) -> (u64, Seq<u128>) {
    if facts.contains_key(id) {
        facts[id]
    } else {
        (0, Seq::empty())
    }
}

/// The version of the sources of asset `id`, for a walk that has already
/// visited `visited`, and the assets visited after it. An asset visited
/// before counts as zero, as does one without an entry. Otherwise the
/// version is the first 8 bytes (little-endian) of the SHA-1 digest of the
/// asset's id, its type, its file version, and then of each child and of
/// each asset its file names, in turn, with its own version.
pub open spec fn walk(
    metas: Map<u128, AssetMetaView>,
    facts: Map<u128, (u64, Seq<u128>)>,
    id: u128,
    visited: Set<u128>,
) -> (u64, Set<u128>)
    decreases (metas.dom() - visited).len(), 0nat,
    when metas.dom().finite()
{
    if visited.contains(id) {
        (0, visited)
    } else if !metas.contains_key(id) {
        (0, visited.insert(id))
    } else {
        let v1 = visited.insert(id);
        proof {
            lemma_visit_shrinks(metas.dom(), visited, id);
        }
        let children = walk_list(metas, facts, metas[id].children, v1);
        let fact = fact_of(facts, id);
        proof {
            lemma_more_visited_shrinks(metas.dom(), v1, v1.union(children.1));
        }
        let references = walk_list(metas, facts, fact.1, v1.union(children.1));
        let input = be_bytes(id as nat, 16) + be_bytes(metas[id].type_uuid as nat, 16) + le_bytes(
            fact.0 as nat,
            8,
        ) + children.0 + references.0;
        (le_value(sha1_of(input).take(8)) as u64, references.1)
    }
}

/// The bytes that the assets `ids` add to a digest (each id, then its
/// version), for a walk that has already visited `visited`, and the assets
/// visited after them.
pub open spec fn walk_list(
    metas: Map<u128, AssetMetaView>,
    facts: Map<u128, (u64, Seq<u128>)>,
    ids: Seq<u128>,
    visited: Set<u128>,
) -> (Seq<u8>, Set<u128>)
    decreases (metas.dom() - visited).len(), ids.len() + 1,
    when metas.dom().finite()
{
    if ids.len() == 0 {
        (Seq::empty(), visited)
    } else {
        let first = walk(metas, facts, ids[0], visited);
        proof {
            lemma_more_visited_shrinks(metas.dom(), visited, visited.union(first.1));
        }
        let rest = walk_list(metas, facts, ids.drop_first(), visited.union(first.1));
        (be_bytes(ids[0] as nat, 16) + le_bytes(first.0 as nat, 8) + rest.0, rest.1)
    }
}

pub proof fn lemma_visit_shrinks(dom: Set<u128>, visited: Set<u128>, id: u128)
    requires
        dom.finite(),
        dom.contains(id),
        !visited.contains(id),
    ensures
        (dom - visited.insert(id)).len() < (dom - visited).len(),
{
    vstd::set_lib::lemma_len_subset(dom - visited, dom);
    assert((dom - visited.insert(id)) =~= (dom - visited).remove(id));
    vstd::set::axiom_set_remove_len(dom - visited, id);
}

pub proof fn lemma_more_visited_shrinks(dom: Set<u128>, visited: Set<u128>, more: Set<u128>)
    requires
        dom.finite(),
        visited.subset_of(more),
    ensures
        (dom - more).len() <= (dom - visited).len(),
{
    vstd::set_lib::lemma_len_subset(dom - visited, dom);
    vstd::set_lib::lemma_len_subset(dom - more, dom - visited);
}

fn visited_contains(visited: &Vec<u128>, id: u128) -> (r: bool)
    ensures
        r == visited@.to_set().contains(id),
{
    let mut i: usize = 0;
    while i < visited.len()
        invariant
            i <= visited@.len(),
            forall|j: int| 0 <= j < i ==> visited@[j] != id,
        decreases visited@.len() - i,
    {
        if visited[i] == id {
            proof {
                assert(visited@.contains(id));
            }
            return true;
        }
        i = i + 1;
    }
    false
}

/// The version of the sources of asset `id` for a walk that has already
/// visited `visited`; `visited` gains the assets visited on the way.
pub fn asset_source_version(
    registry: &AssetRegistry,
    facts: &SourceFacts,
    id: u128,
    visited: &mut Vec<u128>,
) -> (r: u64)
    ensures
        (r, final(visited)@.to_set()) == walk(
            registry.metas(),
            facts.facts(),
            id,
            old(visited)@.to_set(),
        ),
        old(visited)@.to_set().subset_of(final(visited)@.to_set()),
    decreases (registry.metas().dom() - old(visited)@.to_set()).len(), 0nat,
{
    proof {
        use_type_invariant(registry);
        registry.lemma_metas_finite();
    }
    let ghost v0 = visited@.to_set();
    if visited_contains(visited, id) {
        return 0;
    }
    visited.push(id);
    proof {
        assert(visited@.to_set() =~= v0.insert(id)) by {
            old(visited)@.lemma_push_to_set_commute(id);
        }
    }
    let meta = match registry.asset_meta_from_id(id) {
        Some(m) => m,
        None => return 0,
    };
    proof {
        lemma_visit_shrinks(registry.metas().dom(), v0, id);
    }
    let ghost v1 = visited@.to_set();
    let mut bytes: Vec<u8> = Vec::new();
    push_be_bytes(&mut bytes, id, 16);
    push_be_bytes(&mut bytes, meta.type_uuid, 16);
    let (file_version, references) = facts.fact(id);
    push_le_bytes(&mut bytes, file_version, 8);
    let ghost head = bytes@;
    walk_ids(registry, facts, &meta.children, visited, &mut bytes);
    let ghost v2 = visited@.to_set();
    let ghost after_children = bytes@;
    proof {
        assert(v1.union(v2) =~= v2);
        lemma_more_visited_shrinks(registry.metas().dom(), v1, v2);
    }
    walk_ids(registry, facts, &references, visited, &mut bytes);
    let digest = sha1_digest(bytes.as_slice());
    let r = le_u64_prefix(digest.as_slice());
    proof {
        let metas = registry.metas();
        let children = walk_list(metas, facts.facts(), metas[id].children, v1);
        let refs = walk_list(metas, facts.facts(), fact_of(facts.facts(), id).1, v1.union(children.1));
        assert(bytes@ =~= be_bytes(id as nat, 16) + be_bytes(metas[id].type_uuid as nat, 16)
            + le_bytes(file_version as nat, 8) + children.0 + refs.0);
        vstd::arithmetic::power::lemma_pow_positive(256, 8);
        crate::digest::lemma_le_value_bound(sha1_of(bytes@).take(8));
    }
    r
}

/// Appends, for each of `ids` in turn, the id and the version of its
/// sources; `visited` gains the assets visited on the way.
fn walk_ids(
    registry: &AssetRegistry,
    facts: &SourceFacts,
    ids: &Vec<u128>,
    visited: &mut Vec<u128>,
    bytes: &mut Vec<u8>,
)
    ensures
        ({
            let w = walk_list(registry.metas(), facts.facts(), ids@, old(visited)@.to_set());
            &&& final(bytes)@ == old(bytes)@ + w.0
            &&& final(visited)@.to_set() == w.1
        }),
        old(visited)@.to_set().subset_of(final(visited)@.to_set()),
    decreases (registry.metas().dom() - old(visited)@.to_set()).len(), ids@.len() + 1,
{
    proof {
        use_type_invariant(registry);
        registry.lemma_metas_finite();
    }
    let ghost metas = registry.metas();
    let ghost all = walk_list(metas, facts.facts(), ids@, old(visited)@.to_set());
    let mut i: usize = 0;
    proof {
        assert(ids@.skip(0) =~= ids@);
    }
    while i < ids.len()
        invariant
            registry.wf(),
            metas == registry.metas(),
            metas.dom().finite(),
            i <= ids@.len(),
            old(visited)@.to_set().subset_of(visited@.to_set()),
            all == walk_list(metas, facts.facts(), ids@, old(visited)@.to_set()),
            ({
                let rest = walk_list(metas, facts.facts(), ids@.skip(i as int), visited@.to_set());
                &&& old(bytes)@ + all.0 == bytes@ + rest.0
                &&& all.1 == rest.1
            }),
        decreases ids@.len() - i,
    {
        let id = ids[i];
        let ghost vi = visited@.to_set();
        let ghost before = bytes@;
        proof {
            lemma_more_visited_shrinks(metas.dom(), old(visited)@.to_set(), vi);
            assert(ids@.skip(i as int)[0] == id);
            assert(ids@.skip(i as int).drop_first() =~= ids@.skip(i + 1));
        }
        push_be_bytes(bytes, id, 16);
        let version = asset_source_version(registry, facts, id, visited);
        push_le_bytes(bytes, version, 8);
        proof {
            let vn = visited@.to_set();
            assert(vi.union(vn) =~= vn);
            let first = walk(metas, facts.facts(), id, vi);
            let rest = walk_list(metas, facts.facts(), ids@.skip(i + 1), vn);
            assert(walk_list(metas, facts.facts(), ids@.skip(i as int), vi) == (be_bytes(
                id as nat,
                16,
            ) + le_bytes(first.0 as nat, 8) + rest.0, rest.1));
            assert(bytes@ =~= before + be_bytes(id as nat, 16) + le_bytes(first.0 as nat, 8));
            assert(old(bytes)@ + all.0 =~= bytes@ + rest.0);
        }
        i = i + 1;
    }
    proof {
        assert(ids@.skip(ids@.len() as int) =~= Seq::<u128>::empty());
        assert(bytes@ =~= old(bytes)@ + all.0);
    }
}

/// The version of the sources of asset `id`, walked afresh.
pub fn thumbnail_source_version(registry: &AssetRegistry, facts: &SourceFacts, id: u128) -> (r: u64)
    ensures
        r == walk(registry.metas(), facts.facts(), id, Set::<u128>::empty()).0,
{
    proof {
        use_type_invariant(registry);
    }
    let mut visited: Vec<u128> = Vec::new();
    proof {
        assert(visited@.to_set() =~= Set::<u128>::empty());
    }
    asset_source_version(registry, facts, id, &mut visited)
}

/// The assets that the file at `path` names: none unless it is a material
/// or prefab file (`.cxmat`, `.cxprefab`) whose content `document` could be
/// read; else the registry's assets named in it, sorted and without
/// repetition.
pub fn file_references(registry: &AssetRegistry, path: &str, document: Option<&JsonValue>) -> (r: Vec<u128>)
    ensures
        strictly_increasing(r@),
        r@.to_set() == (match path_extension_result(path@) {
            Some(ext) => if references_assets_spec(ext) {
                match document {
                    Some(d) => referenced_ids_of(*d, registry.metas().dom()),
                    None => Set::<u128>::empty(),
                }
            } else {
                Set::<u128>::empty()
            },
            None => Set::<u128>::empty(),
        }),
{
    proof {
        use_type_invariant(registry);
    }
    let empty: Vec<u128> = Vec::new();
    proof {
        assert(empty@.to_set() =~= Set::<u128>::empty());
    }
    let ext = match path_extension(path) {
        Some(e) => e,
        None => return empty,
    };
    if !references_assets(ext.as_str()) {
        return empty;
    }
    match document {
        Some(d) => {
            let known = registry.asset_ids();
            proof {
                registry.lemma_meta_order_lists_ids();
            }
            referenced_asset_ids(&known, d)
        },
        None => empty,
    }
}

/// The thumbnail request for the asset file at `path`: its entry's id, type
/// and source path, with the version of its sources; `None` when no entry
/// is found for the path or its type gets no thumbnails.
pub fn thumbnail_request_from_asset_path(
    registry: &AssetRegistry,
    types: &ThumbnailAssetTypes,
    facts: &SourceFacts,
    path: &str,
) -> (r: Option<ThumbnailRequest>)
    ensures
        match r {
            Some(req) => {
                &&& id_from_path(registry.roots(), registry.names(), path@) == Some(req.asset_id)
                &&& registry.metas().contains_key(req.asset_id)
                &&& registry.metas()[req.asset_id].id == req.asset_id
                &&& req.asset_type == registry.metas()[req.asset_id].type_uuid
                &&& types.supports(req.asset_type)
                &&& opt_text(req.source_path) == registry.metas()[req.asset_id].path
                &&& req.source_version == walk(
                    registry.metas(),
                    facts.facts(),
                    req.asset_id,
                    Set::<u128>::empty(),
                ).0
            },
            None => match id_from_path(registry.roots(), registry.names(), path@) {
                Some(id) => !registry.metas().contains_key(id) || !types.supports(
                    registry.metas()[id].type_uuid,
                ),
                None => true,
            },
        },
{
    proof {
        use_type_invariant(registry);
    }
    let id = match registry.asset_id_from_path(path) {
        Some(id) => id,
        None => return None,
    };
    let meta = match registry.asset_meta_from_id(id) {
        Some(m) => m,
        None => return None,
    };
    if !types.is_supported_asset_type(meta.type_uuid) {
        return None;
    }
    let version = thumbnail_source_version(registry, facts, id);
    proof {
        registry.lemma_meta_ids();
    }
    Some(ThumbnailRequest {
        asset_id: id,
        asset_type: meta.type_uuid,
        source_path: meta.path,
        source_version: version,
    })
}

/// A walk never forgets an asset: the assets visited before stay visited,
/// and the asset asked for is visited.
pub proof fn law_walk_visits(
    metas: Map<u128, AssetMetaView>,
    facts: Map<u128, (u64, Seq<u128>)>,
    id: u128,
    visited: Set<u128>,
)
    requires
        metas.dom().finite(),
    ensures
        visited.subset_of(walk(metas, facts, id, visited).1),
        walk(metas, facts, id, visited).1.contains(id),
    decreases (metas.dom() - visited).len(), 0nat,
{
    if !visited.contains(id) && metas.contains_key(id) {
        let v1 = visited.insert(id);
        lemma_visit_shrinks(metas.dom(), visited, id);
        law_walk_list_visits(metas, facts, metas[id].children, v1);
        let children = walk_list(metas, facts, metas[id].children, v1);
        lemma_more_visited_shrinks(metas.dom(), v1, v1.union(children.1));
        law_walk_list_visits(metas, facts, fact_of(facts, id).1, v1.union(children.1));
    }
}

/// A walk over a list of assets never forgets an asset either.
pub proof fn law_walk_list_visits(
    metas: Map<u128, AssetMetaView>,
    facts: Map<u128, (u64, Seq<u128>)>,
    ids: Seq<u128>,
    visited: Set<u128>,
)
    requires
        metas.dom().finite(),
    ensures
        visited.subset_of(walk_list(metas, facts, ids, visited).1),
    decreases (metas.dom() - visited).len(), ids.len() + 1,
{
    if ids.len() > 0 {
        law_walk_visits(metas, facts, ids[0], visited);
        let first = walk(metas, facts, ids[0], visited);
        lemma_more_visited_shrinks(metas.dom(), visited, visited.union(first.1));
        law_walk_list_visits(metas, facts, ids.drop_first(), visited.union(first.1));
    }
}

} // verus!
