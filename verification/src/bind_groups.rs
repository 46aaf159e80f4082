use vstd::prelude::*;
use crate::material::{
    BindGroupEntry, BindingType, ShaderVariableSlot, binding_type_of, bound_at,
    last_bound_at, has_index_entry, indexes_vars, variable_indices, found_variable, find_variable,
    find_closest_texture_in_group, is_closest_texture, group_texture, binding_distance,
};

verus! {

/// Where a global shader variable is bound and, for a struct type, its size
/// in bytes.
#[derive(Clone, Copy, Debug, PartialEq, Eq, Structural)]
pub struct GlobalLayout {
    pub group: u32,
    pub binding: u32,
    pub struct_span: Option<u32>,
}

/// The size that the globals give the entry at `group` and `binding`: the
/// span of the last struct-typed global bound there.
pub open spec fn struct_span_at(globals: Seq<GlobalLayout>, group: u32, binding: u32) -> Option<u32>
    decreases globals.len(),
{
    if globals.len() == 0 {
        None
    } else {
        let g = globals.last();
        if g.group == group && g.binding == binding && g.struct_span is Some {
            g.struct_span
        } else {
            struct_span_at(globals.drop_last(), group, binding)
        }
    }
}

/// The place `(group, binding)` of `a` comes before that of `b`.
pub open spec fn place_before(a: (u32, u32, BindGroupEntry), b: (u32, u32, BindGroupEntry)) -> bool {
    a.0 < b.0 || (a.0 == b.0 && a.1 < b.1)
}

/// The last variable bound at `group` and `binding`.
pub open spec fn last_var_at(vars: Seq<ShaderVariableSlot>, group: u32, binding: u32) -> int {
    choose|k: int| last_bound_at(vars, k, group, binding)
}

/// `r` is the bind-group table of a material with variables `vars` in a
/// shader with globals `globals`: one entry per place that a variable uses,
/// in (group, binding) order, of the binding type of the last variable
/// there, sized by the struct-typed global there.
pub open spec fn is_entry_table(
    r: Seq<(u32, u32, BindGroupEntry)>,
    vars: Seq<ShaderVariableSlot>,
    globals: Seq<GlobalLayout>,
) -> bool {
    &&& forall|i: int, j: int| 0 <= i < j < r.len() ==> place_before(#[trigger] r[i], #[trigger] r[j])
    &&& forall|i: int|
        #![trigger r[i]]
        0 <= i < r.len() ==> last_bound_at(vars, last_var_at(vars, r[i].0, r[i].1), r[i].0, r[i].1)
            && r[i].2.ty == binding_type_of(vars[last_var_at(vars, r[i].0, r[i].1)].kind)
    &&& forall|i: int| 0 <= i < r.len() ==> #[trigger] r[i].2.size == struct_span_at(globals, r[i].0, r[i].1)
    &&& forall|k: int|
        #![trigger vars[k]]
        0 <= k < vars.len() ==> exists|i: int|
            0 <= i < r.len() && #[trigger] r[i].0 == vars[k].group && r[i].1 == vars[k].binding
}

/// The span of the last struct-typed global at `group` and `binding`.
fn struct_span(globals: &Vec<GlobalLayout>, group: u32, binding: u32) -> (r: Option<u32>)
    ensures
        r == struct_span_at(globals@, group, binding),
{
    let mut i: usize = globals.len();
    proof {
        assert(globals@.take(i as int) =~= globals@);
    }
    while i > 0
        invariant
            i <= globals@.len(),
            struct_span_at(globals@, group, binding) == struct_span_at(globals@.take(i as int), group, binding),
        decreases i,
    {
        let g = globals[i - 1];
        proof {
            assert(globals@.take(i as int).drop_last() =~= globals@.take(i - 1));
        }
        if g.group == group && g.binding == binding && g.struct_span.is_some() {
            return g.struct_span;
        }
        i = i - 1;
    }
    None
}

/// Two variables that are each the last at a place are the same.
proof fn lemma_last_unique(vars: Seq<ShaderVariableSlot>, k1: int, k2: int, group: u32, binding: u32)
    requires
        last_bound_at(vars, k1, group, binding),
        last_bound_at(vars, k2, group, binding),
    ensures
        k1 == k2,
{
    if k1 < k2 {
        assert(!bound_at(vars, k2, group, binding));
    } else if k2 < k1 {
        assert(!bound_at(vars, k1, group, binding));
    }
}

/// The entries of `out` are in (group, binding) order.
pub open spec fn ordered_places(out: Seq<(u32, u32, BindGroupEntry)>) -> bool {
    forall|i: int, j: int| 0 <= i < j < out.len() ==> place_before(#[trigger] out[i], #[trigger] out[j])
}

/// Each entry of `out` is at a place of one of the first `e` index entries.
pub open spec fn from_indices(out: Seq<(u32, u32, BindGroupEntry)>, indices: Seq<(u32, u32, usize)>, e: int) -> bool {
    forall|i: int|
        #![trigger out[i]]
        0 <= i < out.len() ==> exists|f: int|
            0 <= f < e && #[trigger] indices[f].0 == out[i].0 && indices[f].1 == out[i].1
}

/// Each entry of `out` has the type of the last variable at its place and
/// the size of the globals there.
pub open spec fn entries_typed(
    out: Seq<(u32, u32, BindGroupEntry)>,
    vars: Seq<ShaderVariableSlot>,
    globals: Seq<GlobalLayout>,
) -> bool {
    &&& forall|i: int|
        #![trigger out[i]]
        0 <= i < out.len() ==> last_bound_at(vars, last_var_at(vars, out[i].0, out[i].1), out[i].0, out[i].1)
            && out[i].2.ty == binding_type_of(vars[last_var_at(vars, out[i].0, out[i].1)].kind)
    &&& forall|i: int| 0 <= i < out.len() ==> #[trigger] out[i].2.size == struct_span_at(globals, out[i].0, out[i].1)
}

/// The place of each of the first `e` index entries has an entry in `out`.
pub open spec fn covers_indices(out: Seq<(u32, u32, BindGroupEntry)>, indices: Seq<(u32, u32, usize)>, e: int) -> bool {
    forall|f: int|
        #![trigger indices[f]]
        0 <= f < e ==> exists|i: int|
            0 <= i < out.len() && #[trigger] out[i].0 == indices[f].0 && out[i].1 == indices[f].1
}

/// What the table built from the first `e` index entries satisfies.
#[verifier::opaque]
pub open spec fn partial_table(
    out: Seq<(u32, u32, BindGroupEntry)>,
    vars: Seq<ShaderVariableSlot>,
    globals: Seq<GlobalLayout>,
    indices: Seq<(u32, u32, usize)>,
    e: int,
) -> bool {
    &&& ordered_places(out)
    &&& from_indices(out, indices, e)
    &&& entries_typed(out, vars, globals)
    &&& covers_indices(out, indices, e)
}

/// The entries after `item` is inserted at `p`, by index.
proof fn lemma_inserted_at<T>(before: Seq<T>, p: int, item: T)
    requires
        0 <= p <= before.len(),
    ensures
        forall|i: int| 0 <= i < p ==> #[trigger] before.insert(p, item)[i] == before[i],
        before.insert(p, item)[p] == item,
        forall|i: int| p < i <= before.len() ==> #[trigger] before.insert(p, item)[i] == before[i - 1],
        before.insert(p, item).len() == before.len() + 1,
{
}

proof fn lemma_insert_ordered(
    before: Seq<(u32, u32, BindGroupEntry)>,
    p: int,
    item: (u32, u32, BindGroupEntry),
)
    requires
        ordered_places(before),
        0 <= p <= before.len(),
        forall|q: int| 0 <= q < p ==> (#[trigger] before[q].0 < item.0 || (before[q].0 == item.0 && before[q].1 < item.1)),
        forall|q: int| p <= q < before.len() ==> !(#[trigger] before[q].0 < item.0 || (before[q].0 == item.0 && before[q].1 < item.1)),
        forall|i: int| 0 <= i < before.len() ==> !(#[trigger] before[i].0 == item.0 && before[i].1 == item.1),
    ensures
        ordered_places(before.insert(p, item)),
{
    let after = before.insert(p, item);
    lemma_inserted_at(before, p, item);
    assert forall|i: int, j: int| 0 <= i < j < after.len() implies place_before(#[trigger] after[i], #[trigger] after[j]) by {
        if j < p {
            assert(place_before(before[i], before[j]));
        } else if j == p {
            assert(before[i].0 < item.0 || (before[i].0 == item.0 && before[i].1 < item.1));
        } else if i < p {
            assert(place_before(before[i], before[j - 1]));
        } else if i == p {
            assert(!(before[j - 1].0 < item.0 || (before[j - 1].0 == item.0 && before[j - 1].1 < item.1)));
            assert(!(before[j - 1].0 == item.0 && before[j - 1].1 == item.1));
        } else {
            assert(place_before(before[i - 1], before[j - 1]));
        }
    }
}

proof fn lemma_insert_provenance(
    before: Seq<(u32, u32, BindGroupEntry)>,
    indices: Seq<(u32, u32, usize)>,
    e: int,
    p: int,
    entry: BindGroupEntry,
)
    requires
        0 <= e < indices.len(),
        from_indices(before, indices, e),
        covers_indices(before, indices, e),
        0 <= p <= before.len(),
    ensures
        from_indices(before.insert(p, (indices[e].0, indices[e].1, entry)), indices, e + 1),
        covers_indices(before.insert(p, (indices[e].0, indices[e].1, entry)), indices, e + 1),
{
    let item = (indices[e].0, indices[e].1, entry);
    let after = before.insert(p, item);
    lemma_inserted_at(before, p, item);
    assert forall|i: int|
        #![trigger after[i]]
        0 <= i < after.len() implies exists|f: int|
            0 <= f < e + 1 && #[trigger] indices[f].0 == after[i].0 && indices[f].1 == after[i].1 by {
        if i == p {
            assert(indices[e].0 == after[i].0 && indices[e].1 == after[i].1);
        } else {
            let i0 = if i < p { i } else { i - 1 };
            assert(after[i] == before[i0]);
            let f = choose|f: int| 0 <= f < e && #[trigger] indices[f].0 == before[i0].0 && indices[f].1 == before[i0].1;
            assert(indices[f].0 == after[i].0 && indices[f].1 == after[i].1);
        }
    }
    assert forall|f: int|
        #![trigger indices[f]]
        0 <= f < e + 1 implies exists|i: int|
            0 <= i < after.len() && #[trigger] after[i].0 == indices[f].0 && after[i].1 == indices[f].1 by {
        if f == e {
            assert(after[p].0 == indices[f].0 && after[p].1 == indices[f].1);
        } else {
            let i = choose|i: int| 0 <= i < before.len() && #[trigger] before[i].0 == indices[f].0 && before[i].1 == indices[f].1;
            let i1 = if i < p { i } else { i + 1 };
            assert(after[i1] == before[i]);
            assert(after[i1].0 == indices[f].0 && after[i1].1 == indices[f].1);
        }
    }
}

proof fn lemma_insert_typed(
    before: Seq<(u32, u32, BindGroupEntry)>,
    vars: Seq<ShaderVariableSlot>,
    globals: Seq<GlobalLayout>,
    p: int,
    g: u32,
    b: u32,
    k: int,
    entry: BindGroupEntry,
)
    requires
        entries_typed(before, vars, globals),
        0 <= p <= before.len(),
        last_bound_at(vars, k, g, b),
        entry.ty == binding_type_of(vars[k].kind),
        entry.size == struct_span_at(globals, g, b),
    ensures
        entries_typed(before.insert(p, (g, b, entry)), vars, globals),
{
    let item = (g, b, entry);
    let after = before.insert(p, item);
    lemma_inserted_at(before, p, item);
    assert forall|i: int|
        #![trigger after[i]]
        0 <= i < after.len() implies last_bound_at(vars, last_var_at(vars, after[i].0, after[i].1), after[i].0, after[i].1)
            && after[i].2.ty == binding_type_of(vars[last_var_at(vars, after[i].0, after[i].1)].kind) by {
        if i == p {
            assert(last_bound_at(vars, k, g, b));
            lemma_last_unique(vars, last_var_at(vars, g, b), k, g, b);
        } else {
            let i0 = if i < p { i } else { i - 1 };
            assert(after[i] == before[i0]);
        }
    }
    assert forall|i: int| 0 <= i < after.len() implies #[trigger] after[i].2.size == struct_span_at(globals, after[i].0, after[i].1) by {
        if i != p {
            let i0 = if i < p { i } else { i - 1 };
            assert(after[i] == before[i0]);
            assert(before[i0].2.size == struct_span_at(globals, before[i0].0, before[i0].1));
        }
    }
}

proof fn lemma_insert_entry(
    before: Seq<(u32, u32, BindGroupEntry)>,
    vars: Seq<ShaderVariableSlot>,
    globals: Seq<GlobalLayout>,
    indices: Seq<(u32, u32, usize)>,
    e: int,
    p: int,
    entry: BindGroupEntry,
)
    requires
        0 <= e < indices.len(),
        indexes_vars(indices, vars),
        partial_table(before, vars, globals, indices, e),
        0 <= p <= before.len(),
        forall|q: int| 0 <= q < p ==> (#[trigger] before[q].0 < indices[e].0 || (before[q].0 == indices[e].0 && before[q].1 < indices[e].1)),
        p < before.len() ==> !(before[p].0 < indices[e].0 || (before[p].0 == indices[e].0 && before[p].1 < indices[e].1)),
        entry.ty == binding_type_of(vars[indices[e].2 as int].kind),
        entry.size == struct_span_at(globals, indices[e].0, indices[e].1),
    ensures
        partial_table(before.insert(p, (indices[e].0, indices[e].1, entry)), vars, globals, indices, e + 1),
{
    reveal(partial_table);
    let (g, b, k) = indices[e];
    assert(last_bound_at(vars, k as int, g, b));
    assert forall|i: int| 0 <= i < before.len() implies !(#[trigger] before[i].0 == g && before[i].1 == b) by {
        let f = choose|f: int| 0 <= f < e && #[trigger] indices[f].0 == before[i].0 && indices[f].1 == before[i].1;
        if before[i].0 == g && before[i].1 == b {
            assert((indices[f].0, indices[f].1) != (indices[e].0, indices[e].1));
        }
    }
    assert forall|q: int| p <= q < before.len() implies !(#[trigger] before[q].0 < g || (before[q].0 == g && before[q].1 < b)) by {
        if q > p {
            assert(place_before(before[p], before[q]));
        }
    }
    lemma_insert_ordered(before, p, (g, b, entry));
    lemma_insert_provenance(before, indices, e, p, entry);
    lemma_insert_typed(before, vars, globals, p, g, b, k as int, entry);
}

/// The bind-group table of a material whose variables are `vars`, in a
/// shader whose bound globals are `globals`.
pub fn bind_group_entries(vars: &Vec<ShaderVariableSlot>, globals: &Vec<GlobalLayout>) -> (r: Vec<(u32, u32, BindGroupEntry)>)
    ensures
        is_entry_table(r@, vars@, globals@),
{
    let indices = variable_indices(vars);
    let mut out: Vec<(u32, u32, BindGroupEntry)> = Vec::new();
    proof {
        reveal(partial_table);
    }
    let mut e: usize = 0;
    while e < indices.len()
        invariant
            e <= indices@.len(),
            indexes_vars(indices@, vars@),
            partial_table(out@, vars@, globals@, indices@, e as int),
        decreases indices@.len() - e,
    {
        let (g, b, k) = indices[e];
        proof {
            assert(last_bound_at(vars@, k as int, g, b));
        }
        let entry = BindGroupEntry { ty: vars[k].kind.binding_type(), size: struct_span(globals, g, b) };
        let mut p: usize = 0;
        while p < out.len() && (out[p].0 < g || (out[p].0 == g && out[p].1 < b))
            invariant
                p <= out@.len(),
                forall|q: int| 0 <= q < p ==> (#[trigger] out@[q].0 < g || (out@[q].0 == g && out@[q].1 < b)),
            decreases out@.len() - p,
        {
            p = p + 1;
        }
        proof {
            lemma_insert_entry(out@, vars@, globals@, indices@, e as int, p as int, entry);
        }
        out.insert(p, (g, b, entry));
        e = e + 1;
    }
    proof {
        reveal(partial_table);
        assert forall|kk: int|
            #![trigger vars@[kk]]
            0 <= kk < vars@.len() implies exists|i: int|
                0 <= i < out@.len() && #[trigger] out@[i].0 == vars@[kk].group && out@[i].1 == vars@[kk].binding by {
            assert(has_index_entry(indices@, vars@[kk].group, vars@[kk].binding));
            let f = choose|f: int| 0 <= f < indices@.len() && #[trigger] indices@[f].0 == vars@[kk].group && indices@[f].1 == vars@[kk].binding;
            assert(indices@[f] == indices@[f]);
            let i = choose|i: int| 0 <= i < out@.len() && #[trigger] out@[i].0 == indices@[f].0 && out@[i].1 == indices@[f].1;
        }
    }
    out
}

/// Where the resource of a bind-group entry comes from.
#[derive(Clone, Copy, Debug, PartialEq, Eq, Structural)]
pub enum BindingSource {
    /// The material's buffer at that place, of the entry's size.
    Buffer { size: Option<u32> },
    /// The texture of the variable `variable`.
    Texture { variable: usize },
    /// The sampler of the texture of the variable `variable`, or of the
    /// default texture for `None`.
    Sampler { variable: Option<usize> },
}

/// The texture variable that serves a sampler at `group` and `binding`, if
/// the group has a texture.
pub open spec fn closest_texture(vars: Seq<ShaderVariableSlot>, group: u32, binding: u32) -> Option<usize> {
    if exists|i: int| is_closest_texture(vars, i, group, binding) {
        Some((choose|i: int| is_closest_texture(vars, i, group, binding)) as usize)
    } else {
        None
    }
}

/// The sources of the entries of `entries`, in order: a buffer entry takes
/// the buffer; a texture entry takes the variable found at its place, and
/// is left out when there is none; a sampler takes the closest texture of
/// its group.
pub open spec fn sources_of(
    entries: Seq<(u32, u32, BindGroupEntry)>,
    vars: Seq<ShaderVariableSlot>,
    indices: Seq<(u32, u32, usize)>,
) -> Seq<(u32, u32, BindingSource)>
    decreases entries.len(),
{
    if entries.len() == 0 {
        Seq::empty()
    } else {
        let rest = sources_of(entries.drop_last(), vars, indices);
        let (g, b, e) = entries.last();
        match e.ty {
            BindingType::Buffer => rest.push((g, b, BindingSource::Buffer { size: e.size })),
            BindingType::Texture => match found_variable(vars, indices, g, b) {
                Some(k) => rest.push((g, b, BindingSource::Texture { variable: k })),
                None => rest,
            },
            BindingType::Sampler => rest.push(
                (g, b, BindingSource::Sampler { variable: closest_texture(vars, g, b) }),
            ),
        }
    }
}

proof fn lemma_closest_unique(vars: Seq<ShaderVariableSlot>, i: int, group: u32, binding: u32)
    requires
        is_closest_texture(vars, i, group, binding),
    ensures
        closest_texture(vars, group, binding) == Some(i as usize),
{
    let c = choose|c: int| is_closest_texture(vars, c, group, binding);
    if c < i {
        assert(group_texture(vars, c, group));
        assert(binding_distance(binding, vars[i].binding) < binding_distance(binding, vars[c].binding));
        assert(binding_distance(binding, vars[c].binding) <= binding_distance(binding, vars[i].binding));
    } else if i < c {
        assert(group_texture(vars, i, group));
        assert(binding_distance(binding, vars[c].binding) < binding_distance(binding, vars[i].binding));
        assert(binding_distance(binding, vars[i].binding) <= binding_distance(binding, vars[c].binding));
    }
    assert(0 <= i);
}

/// Where each bind-group entry of a material takes its resource from (see
/// `sources_of`); `indices` is the material's variable index.
pub fn bind_group_sources(
    entries: &Vec<(u32, u32, BindGroupEntry)>,
    vars: &Vec<ShaderVariableSlot>,
    indices: &Vec<(u32, u32, usize)>,
) -> (r: Vec<(u32, u32, BindingSource)>)
    requires
        forall|e: int, f: int| 0 <= e < f < indices@.len() ==> (#[trigger] indices@[e].0, indices@[e].1) != (#[trigger] indices@[f].0, indices@[f].1),
    ensures
        r@ == sources_of(entries@, vars@, indices@),
{
    let mut out: Vec<(u32, u32, BindingSource)> = Vec::new();
    let mut i: usize = 0;
    while i < entries.len()
        invariant
            i <= entries@.len(),
            forall|e: int, f: int| 0 <= e < f < indices@.len() ==> (#[trigger] indices@[e].0, indices@[e].1) != (#[trigger] indices@[f].0, indices@[f].1),
            out@ == sources_of(entries@.take(i as int), vars@, indices@),
        decreases entries@.len() - i,
    {
        let (g, b, e) = entries[i];
        proof {
            assert(entries@.take(i + 1).drop_last() =~= entries@.take(i as int));
        }
        match e.ty {
            BindingType::Buffer => {
                out.push((g, b, BindingSource::Buffer { size: e.size }));
            },
            BindingType::Texture => {
                match find_variable(vars, indices, g, b) {
                    Some(k) => out.push((g, b, BindingSource::Texture { variable: k })),
                    None => {},
                }
            },
            BindingType::Sampler => {
                let closest = find_closest_texture_in_group(vars, g, b);
                proof {
                    match closest {
                        Some(c) => lemma_closest_unique(vars@, c as int, g, b),
                        None => {
                            assert(!exists|c: int| is_closest_texture(vars@, c, g, b));
                        },
                    }
                }
                out.push((g, b, BindingSource::Sampler { variable: closest }));
            },
        }
        i = i + 1;
    }
    proof {
        assert(entries@.take(entries@.len() as int) =~= entries@);
    }
    out
}

/// The bind-group table holds each place once, and exactly the places that
/// the material's variables use.
pub proof fn law_entry_places_distinct_and_used(
    r: Seq<(u32, u32, BindGroupEntry)>,
    vars: Seq<ShaderVariableSlot>,
    globals: Seq<GlobalLayout>,
)
    requires
        is_entry_table(r, vars, globals),
    ensures
        forall|i: int, j: int| 0 <= i < j < r.len() ==> (#[trigger] r[i].0, r[i].1) != (#[trigger] r[j].0, r[j].1),
        forall|i: int| #![trigger r[i]] 0 <= i < r.len() ==> bound_at(vars, last_var_at(vars, r[i].0, r[i].1), r[i].0, r[i].1),
{
    assert forall|i: int, j: int| 0 <= i < j < r.len() implies (#[trigger] r[i].0, r[i].1) != (#[trigger] r[j].0, r[j].1) by {
        assert(place_before(r[i], r[j]));
    }
}

} // verus!
