use vstd::prelude::*;
use crate::text::chars_of;

verus! {

/// High-level categories of shader bindings exposed through materials.
#[derive(Clone, Copy, Debug, PartialEq, Eq, Structural)]
pub enum BindingType {
    /// Uniform or storage buffer binding.
    Buffer,
    /// Sampler binding.
    Sampler,
    /// Sampled texture binding.
    Texture,
}

/// The kind of value a shader variable holds.
#[derive(Clone, Copy, Debug, PartialEq, Eq, Structural)]
pub enum ShaderValueKind {
    Int,
    Uint,
    Float,
    Bool,
    Color,
    Vec2,
    Vec3,
    Vec4,
    Mat4,
    Texture2D,
    Sampler,
}

pub open spec fn binding_type_of(kind: ShaderValueKind) -> BindingType {
    match kind {
        ShaderValueKind::Sampler => BindingType::Sampler,
        ShaderValueKind::Texture2D => BindingType::Texture,
        _ => BindingType::Buffer,
    }
}

impl ShaderValueKind {
    /// The bindable resource category of a value of this kind: samplers and
    /// textures are their own; every other value lives in a buffer.
    pub fn binding_type(self) -> (r: BindingType)
        ensures
            r == binding_type_of(self),
    {
        match self {
            ShaderValueKind::Sampler => BindingType::Sampler,
            ShaderValueKind::Texture2D => BindingType::Texture,
            _ => BindingType::Buffer,
        }
    }
}

/// Where a material variable lives in the shader and what it holds.
#[derive(Clone, Copy, Debug, PartialEq, Eq, Structural)]
pub struct ShaderVariableSlot {
    pub group: u32,
    pub binding: u32,
    pub offset: Option<u32>,
    pub kind: ShaderValueKind,
}

/// Cached metadata for one bind-group entry.
#[derive(Clone, Copy, Debug, PartialEq, Eq, Structural)]
pub struct BindGroupEntry {
    pub ty: BindingType,
    pub size: Option<u32>,
}

/// The order of two variable slots.
#[derive(Clone, Copy, Debug, PartialEq, Eq, Structural)]
pub enum SlotOrder {
    Less,
    Equal,
    Greater,
}

/// `a` comes before `b`: by group, then binding, then offset (no offset
/// before any offset).
pub open spec fn slot_before(a: ShaderVariableSlot, b: ShaderVariableSlot) -> bool {
    a.group < b.group || (a.group == b.group && (a.binding < b.binding || (a.binding == b.binding
        && match (a.offset, b.offset) {
        (None, Some(_)) => true,
        (Some(x), Some(y)) => x < y,
        _ => false,
    })))
}

/// Two slots are the same place: equal group, binding and offset.
pub open spec fn same_slot(a: ShaderVariableSlot, b: ShaderVariableSlot) -> bool {
    a.group == b.group && a.binding == b.binding && a.offset == b.offset
}

/// How `a` is ordered against `b` (group, then binding, then offset).
pub fn order_slots(a: &ShaderVariableSlot, b: &ShaderVariableSlot) -> (r: SlotOrder)
    ensures
        r == (if same_slot(*a, *b) {
            SlotOrder::Equal
        } else if slot_before(*a, *b) {
            SlotOrder::Less
        } else {
            SlotOrder::Greater
        }),
{
    if a.group != b.group {
        return if a.group < b.group { SlotOrder::Less } else { SlotOrder::Greater };
    }
    if a.binding != b.binding {
        return if a.binding < b.binding { SlotOrder::Less } else { SlotOrder::Greater };
    }
    match (a.offset, b.offset) {
        (None, None) => SlotOrder::Equal,
        (None, Some(_)) => SlotOrder::Less,
        (Some(_), None) => SlotOrder::Greater,
        (Some(x), Some(y)) => if x == y {
            SlotOrder::Equal
        } else if x < y {
            SlotOrder::Less
        } else {
            SlotOrder::Greater
        },
    }
}

/// `vars[i]` is bound at `group` and `binding`.
pub open spec fn bound_at(vars: Seq<ShaderVariableSlot>, i: int, group: u32, binding: u32) -> bool {
    0 <= i < vars.len() && vars[i].group == group && vars[i].binding == binding
}

/// `i` is the last variable bound at `group` and `binding`.
pub open spec fn last_bound_at(vars: Seq<ShaderVariableSlot>, i: int, group: u32, binding: u32) -> bool {
    bound_at(vars, i, group, binding) && forall|j: int| i < j < vars.len() ==> !bound_at(vars, j, group, binding)
}

/// Some entry of `indices` is for `group` and `binding`.
pub open spec fn has_index_entry(indices: Seq<(u32, u32, usize)>, group: u32, binding: u32) -> bool {
    exists|e: int| 0 <= e < indices.len() && #[trigger] indices[e].0 == group && indices[e].1 == binding
}

/// `indices` maps each (group, binding) that some variable uses to the last
/// variable bound there, once each.
pub open spec fn indexes_vars(indices: Seq<(u32, u32, usize)>, vars: Seq<ShaderVariableSlot>) -> bool {
    &&& forall|e: int| 0 <= e < indices.len() ==> last_bound_at(vars, #[trigger] indices[e].2 as int, indices[e].0, indices[e].1)
    &&& forall|e: int, f: int| 0 <= e < f < indices.len() ==> (#[trigger] indices[e].0, indices[e].1) != (#[trigger] indices[f].0, indices[f].1)
    &&& forall|i: int| 0 <= i < vars.len() ==> #[trigger] has_index_entry(indices, vars[i].group, vars[i].binding)
}

fn lookup_index(indices: &Vec<(u32, u32, usize)>, group: u32, binding: u32) -> (r: Option<usize>)
    ensures
        match r {
            Some(e) => e < indices@.len() && indices@[e as int].0 == group && indices@[e as int].1 == binding,
            None => forall|e: int| 0 <= e < indices@.len() ==> !(#[trigger] indices@[e].0 == group && indices@[e].1 == binding),
        },
{
    let mut e: usize = 0;
    while e < indices.len()
        invariant
            e <= indices@.len(),
            forall|f: int| 0 <= f < e ==> !(#[trigger] indices@[f].0 == group && indices@[f].1 == binding),
        decreases indices@.len() - e,
    {
        if indices[e].0 == group && indices[e].1 == binding {
            return Some(e);
        }
        e = e + 1;
    }
    None
}

/// The index of the last variable at each (group, binding) in use.
pub fn variable_indices(vars: &Vec<ShaderVariableSlot>) -> (r: Vec<(u32, u32, usize)>)
    ensures
        indexes_vars(r@, vars@),
{
    let mut out: Vec<(u32, u32, usize)> = Vec::new();
    let mut i: usize = 0;
    while i < vars.len()
        invariant
            i <= vars@.len(),
            forall|e: int| 0 <= e < out@.len() ==> last_bound_at(vars@.take(i as int), #[trigger] out@[e].2 as int, out@[e].0, out@[e].1),
            forall|e: int, f: int| 0 <= e < f < out@.len() ==> (#[trigger] out@[e].0, out@[e].1) != (#[trigger] out@[f].0, out@[f].1),
            forall|j: int| 0 <= j < i ==> #[trigger] has_index_entry(out@, vars@[j].group, vars@[j].binding),
        decreases vars@.len() - i,
    {
        let g = vars[i].group;
        let b = vars[i].binding;
        let ghost before = out@;
        let ghost pre = vars@.take(i as int);
        let ghost post = vars@.take(i as int + 1);
        proof {
            assert forall|j: int| 0 <= j < i implies #[trigger] post[j] == pre[j] && pre[j] == vars@[j] by {}
            assert(post[i as int] == vars@[i as int]);
        }
        match lookup_index(&out, g, b) {
            Some(e0) => {
                out[e0] = (g, b, i);
                proof {
                    assert forall|e: int| 0 <= e < out@.len() implies last_bound_at(post, #[trigger] out@[e].2 as int, out@[e].0, out@[e].1) by {
                        if e == e0 {
                            assert(bound_at(post, i as int, g, b));
                        } else {
                            assert(out@[e] == before[e]);
                            assert((before[e].0, before[e].1) != (before[e0 as int].0, before[e0 as int].1)) by {
                                if e < e0 { assert((before[e].0, before[e].1) != (before[e0 as int].0, before[e0 as int].1)); }
                                else { assert((before[e0 as int].0, before[e0 as int].1) != (before[e].0, before[e].1)); }
                            }
                            let (k0, k1, x) = before[e];
                            assert(last_bound_at(pre, x as int, k0, k1));
                            assert(bound_at(post, x as int, k0, k1));
                            assert forall|j: int| x < j < post.len() implies !bound_at(post, j, k0, k1) by {
                                if j < i {
                                    assert(!bound_at(pre, j, k0, k1));
                                } else {
                                    assert(post[j] == vars@[i as int]);
                                }
                            }
                        }
                    }
                    assert forall|e: int, f: int| 0 <= e < f < out@.len() implies (#[trigger] out@[e].0, out@[e].1) != (#[trigger] out@[f].0, out@[f].1) by {
                        assert((out@[e].0, out@[e].1) == (before[e].0, before[e].1));
                        assert((out@[f].0, out@[f].1) == (before[f].0, before[f].1));
                    }
                    assert forall|j: int| 0 <= j < i + 1 implies #[trigger] has_index_entry(out@, vars@[j].group, vars@[j].binding) by {
                        if j == i {
                            assert(out@[e0 as int].0 == g && out@[e0 as int].1 == b);
                        } else {
                            assert(has_index_entry(before, vars@[j].group, vars@[j].binding));
                            let e = choose|e: int| 0 <= e < before.len() && #[trigger] before[e].0 == vars@[j].group && before[e].1 == vars@[j].binding;
                            assert(out@[e].0 == before[e].0 && out@[e].1 == before[e].1);
                        }
                    }
                }
            },
            None => {
                out.push((g, b, i));
                proof {
                    let n0 = before.len() as int;
                    assert forall|e: int| 0 <= e < out@.len() implies last_bound_at(post, #[trigger] out@[e].2 as int, out@[e].0, out@[e].1) by {
                        if e == n0 {
                            assert(bound_at(post, i as int, g, b));
                        } else {
                            assert(out@[e] == before[e]);
                            assert(!(before[e].0 == g && before[e].1 == b));
                            let (k0, k1, x) = before[e];
                            assert(last_bound_at(pre, x as int, k0, k1));
                            assert(bound_at(post, x as int, k0, k1));
                            assert forall|j: int| x < j < post.len() implies !bound_at(post, j, k0, k1) by {
                                if j < i {
                                    assert(!bound_at(pre, j, k0, k1));
                                } else {
                                    assert(post[j] == vars@[i as int]);
                                }
                            }
                        }
                    }
                    assert forall|e: int, f: int| 0 <= e < f < out@.len() implies (#[trigger] out@[e].0, out@[e].1) != (#[trigger] out@[f].0, out@[f].1) by {
                        if f == n0 {
                            assert(!(before[e].0 == g && before[e].1 == b));
                        }
                    }
                    assert forall|j: int| 0 <= j < i + 1 implies #[trigger] has_index_entry(out@, vars@[j].group, vars@[j].binding) by {
                        if j == i {
                            assert(out@[n0].0 == g && out@[n0].1 == b);
                        } else {
                            assert(has_index_entry(before, vars@[j].group, vars@[j].binding));
                            let e = choose|e: int| 0 <= e < before.len() && #[trigger] before[e].0 == vars@[j].group && before[e].1 == vars@[j].binding;
                            assert(out@[e] == before[e]);
                        }
                    }
                }
            },
        }
        i = i + 1;
    }
    proof {
        assert(vars@.take(vars@.len() as int) =~= vars@);
        assert forall|e: int| 0 <= e < out@.len() implies last_bound_at(vars@, #[trigger] out@[e].2 as int, out@[e].0, out@[e].1) by {
            assert(last_bound_at(vars@.take(vars@.len() as int), out@[e].2 as int, out@[e].0, out@[e].1));
        }
        assert(i == vars@.len());
    }
    out
}

/// The variable that `find_variable` finds: the indexed one when the index
/// points at a variable of that group and binding, else the first such
/// variable.
pub open spec fn found_variable(
    vars: Seq<ShaderVariableSlot>,
    indices: Seq<(u32, u32, usize)>,
    group: u32,
    binding: u32,
) -> Option<usize> {
    let first = if exists|i: int| bound_at(vars, i, group, binding) {
        Some((choose|i: int| bound_at(vars, i, group, binding) && forall|j: int| 0 <= j < i ==> !bound_at(vars, j, group, binding)) as usize)
    } else {
        None
    };
    if exists|e: int| 0 <= e < indices.len() && indices[e].0 == group && indices[e].1 == binding {
        let e = choose|e: int| 0 <= e < indices.len() && indices[e].0 == group && indices[e].1 == binding;
        if bound_at(vars, indices[e].2 as int, group, binding) {
            Some(indices[e].2)
        } else {
            first
        }
    } else {
        first
    }
}

/// The variable bound at `group` and `binding`, looked up through `indices`
/// first and by a scan when the index is missing or stale.
pub fn find_variable(
    vars: &Vec<ShaderVariableSlot>,
    indices: &Vec<(u32, u32, usize)>,
    group: u32,
    binding: u32,
) -> (r: Option<usize>)
    requires
        forall|e: int, f: int| 0 <= e < f < indices@.len() ==> (#[trigger] indices@[e].0, indices@[e].1) != (#[trigger] indices@[f].0, indices@[f].1),
    ensures
        r == found_variable(vars@, indices@, group, binding),
        r matches Some(i) ==> bound_at(vars@, i as int, group, binding),
        r is None ==> forall|i: int| !bound_at(vars@, i, group, binding),
{
    let found = lookup_index(indices, group, binding);
    if let Some(e) = found {
        let idx = indices[e].2;
        if idx < vars.len() && vars[idx].group == group && vars[idx].binding == binding {
            proof {
                let c = choose|c: int| 0 <= c < indices@.len() && indices@[c].0 == group && indices@[c].1 == binding;
                if c != e as int {
                    if c < e { assert((indices@[c].0, indices@[c].1) != (indices@[e as int].0, indices@[e as int].1)); }
                    else { assert((indices@[e as int].0, indices@[e as int].1) != (indices@[c].0, indices@[c].1)); }
                }
            }
            return Some(idx);
        }
    }
    let mut i: usize = 0;
    while i < vars.len()
        invariant
            i <= vars@.len(),
            forall|j: int| 0 <= j < i ==> !bound_at(vars@, j, group, binding),
            forall|e: int, f: int| 0 <= e < f < indices@.len() ==> (#[trigger] indices@[e].0, indices@[e].1) != (#[trigger] indices@[f].0, indices@[f].1),
            match found {
                Some(e) => e < indices@.len() && indices@[e as int].0 == group && indices@[e as int].1 == binding
                    && !bound_at(vars@, indices@[e as int].2 as int, group, binding),
                None => forall|e: int| 0 <= e < indices@.len() ==> !(#[trigger] indices@[e].0 == group && indices@[e].1 == binding),
            },
        decreases vars@.len() - i,
    {
        if vars[i].group == group && vars[i].binding == binding {
            proof {
                assert(bound_at(vars@, i as int, group, binding) && forall|j: int| 0 <= j < i ==> !bound_at(vars@, j, group, binding));
                let c = choose|c: int| bound_at(vars@, c, group, binding) && forall|j: int| 0 <= j < c ==> !bound_at(vars@, j, group, binding);
                if c < i {
                    assert(!bound_at(vars@, c, group, binding));
                } else if c > i {
                    assert(!bound_at(vars@, i as int, group, binding));
                }
                assert(c == i);
                if exists|e: int| 0 <= e < indices@.len() && indices@[e].0 == group && indices@[e].1 == binding {
                    let e = choose|e: int| 0 <= e < indices@.len() && indices@[e].0 == group && indices@[e].1 == binding;
                    match found {
                        Some(e0) => {
                            if e != e0 as int {
                                if e < e0 { assert((indices@[e].0, indices@[e].1) != (indices@[e0 as int].0, indices@[e0 as int].1)); }
                                else { assert((indices@[e0 as int].0, indices@[e0 as int].1) != (indices@[e].0, indices@[e].1)); }
                            }
                        },
                        None => {
                            assert(!(indices@[e].0 == group && indices@[e].1 == binding));
                        },
                    }
                }
            }
            return Some(i);
        }
        i = i + 1;
    }
    proof {
        assert(!exists|c: int| bound_at(vars@, c, group, binding));
    }
    None
}

/// `|a - b|` of two binding numbers.
pub open spec fn binding_distance(a: u32, b: u32) -> int {
    if a >= b {
        a - b
    } else {
        b - a
    }
}

/// `vars[i]` is a texture variable of `group`.
pub open spec fn group_texture(vars: Seq<ShaderVariableSlot>, i: int, group: u32) -> bool {
    0 <= i < vars.len() && vars[i].group == group && binding_type_of(vars[i].kind) == BindingType::Texture
}

/// The texture variable of `group` nearest to `binding`; the first of the
/// nearest ones when several are equally near.
pub open spec fn is_closest_texture(vars: Seq<ShaderVariableSlot>, i: int, group: u32, binding: u32) -> bool {
    &&& group_texture(vars, i, group)
    &&& forall|j: int| group_texture(vars, j, group) ==> binding_distance(binding, vars[i].binding) <= binding_distance(binding, #[trigger] vars[j].binding)
    &&& forall|j: int| 0 <= j < i && group_texture(vars, j, group) ==> binding_distance(binding, vars[i].binding) < binding_distance(binding, #[trigger] vars[j].binding)
}

/// The index of the texture variable whose sampler serves `binding` of
/// `group`: the nearest texture binding in that group, the first among
/// equals; `None` when the group has no texture.
pub fn find_closest_texture_in_group(vars: &Vec<ShaderVariableSlot>, group: u32, binding: u32) -> (r: Option<usize>)
    ensures
        match r {
            Some(i) => is_closest_texture(vars@, i as int, group, binding),
            None => forall|j: int| !group_texture(vars@, j, group),
        },
{
    let mut best: Option<usize> = None;
    let mut closest: u32 = u32::MAX;
    let mut i: usize = 0;
    while i < vars.len()
        invariant
            i <= vars@.len(),
            best is None ==> forall|j: int| 0 <= j < i ==> !group_texture(vars@, j, group),
            best matches Some(b) ==> b < i && group_texture(vars@, b as int, group) && closest == binding_distance(binding, vars@[b as int].binding)
                && (forall|j: int| 0 <= j < i && group_texture(vars@, j, group) ==> closest <= binding_distance(binding, #[trigger] vars@[j].binding))
                && (forall|j: int| 0 <= j < b && group_texture(vars@, j, group) ==> closest < binding_distance(binding, #[trigger] vars@[j].binding)),
        decreases vars@.len() - i,
    {
        let v = &vars[i];
        if v.group == group {
            if let BindingType::Texture = v.kind.binding_type() {
                let diff = if binding >= v.binding { binding - v.binding } else { v.binding - binding };
                if best.is_none() || diff < closest {
                    closest = diff;
                    best = Some(i);
                }
            }
        }
        i = i + 1;
    }
    best
}

/// The ASCII lower-case form of `c`.
pub open spec fn ascii_lower(c: char) -> char {
    if 'A' <= c && c <= 'Z' {
        ((c as int) + 32) as char
    } else {
        c
    }
}

/// `s` with every letter in lower case.
pub open spec fn lower_seq(s: Seq<char>) -> Seq<char> {
    s.map_values(|c: char| ascii_lower(c))
}

/// Whether a variable called `name` holds a color: its lower-case name is
/// `color`, ends in `_color` or ` color`, or contains `albedo`.
pub open spec fn is_color_name(name: Seq<char>) -> bool {
    let n = lower_seq(name);
    n == "color"@ || "_color"@.is_suffix_of(n) || " color"@.is_suffix_of(n) || exists|i: int|
        0 <= i && i + 6 <= n.len() && #[trigger] n.subrange(i, i + 6) == "albedo"@
}

fn lower_chars(s: &str) -> (r: Vec<char>)
    ensures
        r@ == lower_seq(s@),
{
    let cs = chars_of(s);
    let mut out: Vec<char> = Vec::new();
    let mut i: usize = 0;
    while i < cs.len()
        invariant
            i <= cs@.len(),
            cs@ == s@,
            out@ == s@.take(i as int).map_values(|c: char| ascii_lower(c)),
        decreases cs@.len() - i,
    {
        let c = cs[i];
        let l = if 'A' <= c && c <= 'Z' { ((c as u32) + 32) as u8 as char } else { c };
        proof {
            if 'A' <= c && c <= 'Z' {
                assert(l == ascii_lower(c));
            }
        }
        out.push(l);
        proof {
            assert(s@.take(i as int + 1).map_values(|c: char| ascii_lower(c)) =~= s@.take(i as int).map_values(|c: char| ascii_lower(c)).push(ascii_lower(c)));
        }
        i = i + 1;
    }
    proof {
        assert(s@.take(s@.len() as int) =~= s@);
    }
    out
}

fn matches_at(n: &Vec<char>, start: usize, pat: &Vec<char>) -> (r: bool)
    requires
        start + pat@.len() <= n@.len(),
    ensures
        r == (n@.subrange(start as int, start + pat@.len()) == pat@),
{
    let mut k: usize = 0;
    while k < pat.len()
        invariant
            k <= pat@.len(),
            start + pat@.len() <= n@.len(),
            forall|j: int| 0 <= j < k ==> n@[start + j] == pat@[j],
        decreases pat@.len() - k,
    {
        assert(start + k < n.len());
        let pos = start + k;
        if n[pos] != pat[k] {
            proof {
                assert(n@.subrange(start as int, start + pat@.len())[k as int] != pat@[k as int]);
            }
            return false;
        }
        k = k + 1;
    }
    proof {
        assert(n@.subrange(start as int, start + pat@.len()) =~= pat@);
    }
    true
}

/// Whether a shader variable called `name` is edited as a color.
pub fn is_color_variable(name: &str) -> (r: bool)
    ensures
        r == is_color_name(name@),
{
    let n = lower_chars(name);
    let color = chars_of("color");
    let underscore = chars_of("_color");
    let spaced = chars_of(" color");
    let albedo = chars_of("albedo");
    proof {
        reveal_strlit("color");
        reveal_strlit("_color");
        reveal_strlit(" color");
        reveal_strlit("albedo");
    }
    if n.len() == color.len() && matches_at(&n, 0, &color) {
        proof {
            assert(n@.subrange(0, n@.len() as int) =~= n@);
        }
        return true;
    }
    proof {
        if n@ == "color"@ {
            assert(n@.subrange(0, n@.len() as int) =~= n@);
        }
    }
    if n.len() >= 6 {
        let start = n.len() - 6;
        if matches_at(&n, start, &underscore) || matches_at(&n, start, &spaced) {
            return true;
        }
    }
    let mut i: usize = 0;
    while i <= n.len() && n.len() - i >= 6
        invariant
            i <= n@.len(),
            n@ == lower_seq(name@),
            albedo@ == "albedo"@,
            albedo@.len() == 6,
            forall|j: int| 0 <= j < i && j + 6 <= n@.len() ==> #[trigger] n@.subrange(j, j + 6) != "albedo"@,
        decreases n@.len() - i,
    {
        if matches_at(&n, i, &albedo) {
            proof {
                assert(n@.subrange(i as int, i + 6) == "albedo"@);
            }
            return true;
        }
        i = i + 1;
    }
    false
}

} // verus!
