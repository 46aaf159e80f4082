use vstd::prelude::*;
use crate::material::{ShaderValueKind, is_color_variable, is_color_name};

verus! {

/// Scalar kinds of shader types.
#[derive(Clone, Copy, Debug, PartialEq, Eq, Structural)]
pub enum ScalarKind {
    Sint,
    Uint,
    Float,
    Bool,
    AbstractInt,
    AbstractFloat,
}

/// A scalar type: its kind and width in bytes.
#[derive(Clone, Copy, Debug, PartialEq, Eq, Structural)]
pub struct Scalar {
    pub kind: ScalarKind,
    pub width: u8,
}

/// Number of components of a vector or of a matrix dimension.
#[derive(Clone, Copy, Debug, PartialEq, Eq, Structural)]
pub enum VectorSize {
    Bi,
    Tri,
    Quad,
}

pub open spec fn vector_len(size: VectorSize) -> u32 {
    match size {
        VectorSize::Bi => 2,
        VectorSize::Tri => 3,
        VectorSize::Quad => 4,
    }
}

impl VectorSize {
    /// The number of components.
    pub fn len(self) -> (r: u32)
        ensures
            r == vector_len(self),
    {
        match self {
            VectorSize::Bi => 2,
            VectorSize::Tri => 3,
            VectorSize::Quad => 4,
        }
    }
}

/// Dimension of a sampled image.
#[derive(Clone, Copy, Debug, PartialEq, Eq, Structural)]
pub enum ImageDimension {
    D1,
    D2,
    D3,
    Cube,
}

/// The shape of a shader type as material reflection reads it; struct
/// members carry their own types.
pub enum ShaderType {
    Matrix { rows: VectorSize, columns: VectorSize, scalar: Scalar },
    Vector { size: VectorSize, scalar: Scalar },
    Scalar(Scalar),
    Image { dim: ImageDimension, arrayed: bool },
    Sampler,
    Struct(Vec<StructMember>),
    Other,
}

/// A member of a struct type.
pub struct StructMember {
    pub name: Option<String>,
    pub offset: u32,
    pub ty: ShaderType,
}

/// A global shader variable with a resource binding.
pub struct GlobalBinding {
    pub group: u32,
    pub binding: u32,
    pub name: Option<String>,
    pub ty: ShaderType,
}

/// A material variable found by reflection.
pub struct ShaderVariableDecl {
    pub group: u32,
    pub binding: u32,
    pub offset: Option<u32>,
    pub name: String,
    pub span: Option<u32>,
    pub kind: ShaderValueKind,
}

/// The plain parts of a declaration: group, binding, offset, name, span and
/// kind.
pub open spec fn decl_view(d: ShaderVariableDecl) -> (u32, u32, Option<u32>, Seq<char>, Option<u32>, ShaderValueKind) {
    (d.group, d.binding, d.offset, d.name@, d.span, d.kind)
}

pub open spec fn decl_of(group: u32, binding: u32, offset: Option<u32>, name: Seq<char>, span: Option<u32>, kind: ShaderValueKind) -> (u32, u32, Option<u32>, Seq<char>, Option<u32>, ShaderValueKind) {
    (group, binding, offset, name, span, kind)
}

pub open spec fn name_or_empty(name: Option<String>) -> Seq<char> {
    match name {
        Some(n) => n@,
        None => Seq::empty(),
    }
}

/// The material variables that a value of type `ty` bound at `group` and
/// `binding` exposes: a 4x4 float matrix, a float vector (a four-component
/// one named like a color is a color), a 32-bit integer, unsigned or float
/// scalar or a boolean, a non-arrayed 2D image, a sampler, or the variables
/// of each struct member in turn; nothing for any other type.
pub open spec fn reflected(ty: ShaderType, group: u32, binding: u32, name: Seq<char>, offset: Option<u32>) -> Seq<(u32, u32, Option<u32>, Seq<char>, Option<u32>, ShaderValueKind)>
    decreases ty,
{
    match ty {
        ShaderType::Matrix { rows, columns, scalar } => if rows == VectorSize::Quad && columns == VectorSize::Quad
            && scalar == (Scalar { kind: ScalarKind::Float, width: 4 }) {
            seq![decl_of(group, binding, offset, name, Some(64u32), ShaderValueKind::Mat4)]
        } else {
            Seq::empty()
        },
        ShaderType::Vector { size, scalar } => if scalar.kind == ScalarKind::Float && scalar.width == 4 {
            let kind = match size {
                VectorSize::Bi => ShaderValueKind::Vec2,
                VectorSize::Tri => ShaderValueKind::Vec3,
                VectorSize::Quad => if is_color_name(name) {
                    ShaderValueKind::Color
                } else {
                    ShaderValueKind::Vec4
                },
            };
            seq![decl_of(group, binding, offset, name, Some((vector_len(size) * 4) as u32), kind)]
        } else {
            Seq::empty()
        },
        ShaderType::Scalar(s) => match s.kind {
            ScalarKind::Uint => if s.width == 4 {
                seq![decl_of(group, binding, offset, name, Some(4u32), ShaderValueKind::Uint)]
            } else {
                Seq::empty()
            },
            ScalarKind::Sint => if s.width == 4 {
                seq![decl_of(group, binding, offset, name, Some(4u32), ShaderValueKind::Int)]
            } else {
                Seq::empty()
            },
            ScalarKind::Float => if s.width == 4 {
                seq![decl_of(group, binding, offset, name, Some(4u32), ShaderValueKind::Float)]
            } else {
                Seq::empty()
            },
            ScalarKind::Bool => seq![decl_of(group, binding, offset, name, Some(s.width as u32), ShaderValueKind::Bool)],
            _ => Seq::empty(),
        },
        ShaderType::Image { dim, arrayed } => if dim == ImageDimension::D2 && !arrayed {
            seq![decl_of(group, binding, offset, name, None, ShaderValueKind::Texture2D)]
        } else {
            Seq::empty()
        },
        ShaderType::Sampler => seq![decl_of(group, binding, offset, name, None, ShaderValueKind::Sampler)],
        ShaderType::Struct(members) => reflected_members(members@, group, binding),
        ShaderType::Other => Seq::empty(),
    }
}

pub open spec fn reflected_members(members: Seq<StructMember>, group: u32, binding: u32) -> Seq<(u32, u32, Option<u32>, Seq<char>, Option<u32>, ShaderValueKind)>
    decreases members,
{
    if members.len() == 0 {
        Seq::empty()
    } else {
        let m = members.last();
        reflected_members(members.drop_last(), group, binding) + reflected(m.ty, group, binding, name_or_empty(m.name), Some(m.offset))
    }
}

fn option_name(name: &Option<String>) -> (r: String)
    ensures
        r@ == name_or_empty(*name),
{
    match name {
        Some(n) => n.clone(),
        None => String::new(),
    }
}

/// Appends the material variables of a value of type `ty` bound at `group`
/// and `binding`.
pub fn shader_variable(ty: &ShaderType, group: u32, binding: u32, name: String, offset: Option<u32>, out: &mut Vec<ShaderVariableDecl>)
    ensures
        final(out)@.map_values(|d: ShaderVariableDecl| decl_view(d)) == old(out)@.map_values(|d: ShaderVariableDecl| decl_view(d)) + reflected(*ty, group, binding, name@, offset),
    decreases ty,
{
    let ghost before = out@.map_values(|d: ShaderVariableDecl| decl_view(d));
    let ghost nm = name@;
    match ty {
        ShaderType::Matrix { rows, columns, scalar } => {
            if matches!(rows, VectorSize::Quad) && matches!(columns, VectorSize::Quad)
                && matches!(scalar.kind, ScalarKind::Float) && scalar.width == 4 {
                out.push(ShaderVariableDecl { group, binding, offset, name, span: Some(64), kind: ShaderValueKind::Mat4 });
            }
        },
        ShaderType::Vector { size, scalar } => {
            if matches!(scalar.kind, ScalarKind::Float) && scalar.width == 4 {
                let kind = match size {
                    VectorSize::Bi => ShaderValueKind::Vec2,
                    VectorSize::Tri => ShaderValueKind::Vec3,
                    VectorSize::Quad => if is_color_variable(name.as_str()) {
                        ShaderValueKind::Color
                    } else {
                        ShaderValueKind::Vec4
                    },
                };
                let span = size.len() * 4;
                out.push(ShaderVariableDecl { group, binding, offset, name, span: Some(span), kind });
            }
        },
        ShaderType::Scalar(s) => {
            let found = match s.kind {
                ScalarKind::Uint => if s.width == 4 { Some((4u32, ShaderValueKind::Uint)) } else { None },
                ScalarKind::Sint => if s.width == 4 { Some((4u32, ShaderValueKind::Int)) } else { None },
                ScalarKind::Float => if s.width == 4 { Some((4u32, ShaderValueKind::Float)) } else { None },
                ScalarKind::Bool => Some((s.width as u32, ShaderValueKind::Bool)),
                _ => None,
            };
            if let Some((span, kind)) = found {
                out.push(ShaderVariableDecl { group, binding, offset, name, span: Some(span), kind });
            }
        },
        ShaderType::Image { dim, arrayed } => {
            if matches!(dim, ImageDimension::D2) && !*arrayed {
                out.push(ShaderVariableDecl { group, binding, offset, name, span: None, kind: ShaderValueKind::Texture2D });
            }
        },
        ShaderType::Sampler => {
            out.push(ShaderVariableDecl { group, binding, offset, name, span: None, kind: ShaderValueKind::Sampler });
        },
        ShaderType::Struct(members) => {
            let mut i: usize = 0;
            while i < members.len()
                invariant
                    i <= members@.len(),
                    *ty == ShaderType::Struct(*members),
                    out@.map_values(|d: ShaderVariableDecl| decl_view(d)) == before + reflected_members(members@.take(i as int), group, binding),
                decreases members@.len() - i,
            {
                proof {
                    assert(members@.take(i as int + 1).drop_last() =~= members@.take(i as int));
                    vstd::std_specs::vec::axiom_vec_index_decreases(*members, i as int);
                    assert(decreases_to!(*ty => ty->Struct_0));
                    assert(decreases_to!(members[i as int] => members[i as int].ty));
                }
                let m = &members[i];
                let member_name = option_name(&m.name);
                shader_variable(&m.ty, group, binding, member_name, Some(m.offset), out);
                proof {
                    assert(out@.map_values(|d: ShaderVariableDecl| decl_view(d)) =~= before + reflected_members(members@.take(i as int + 1), group, binding));
                }
                i = i + 1;
            }
            proof {
                assert(members@.take(members@.len() as int) =~= members@);
            }
        },
        ShaderType::Other => {},
    }
    proof {
        assert(final(out)@.map_values(|d: ShaderVariableDecl| decl_view(d)) =~= before + reflected(*ty, group, binding, nm, offset));
    }
}

/// The material variables of a shader: those of every bound global in a
/// group from 3 on, in order; a global without a name is reflected with an
/// empty name.
pub open spec fn reflected_globals(globals: Seq<GlobalBinding>) -> Seq<(u32, u32, Option<u32>, Seq<char>, Option<u32>, ShaderValueKind)>
    decreases globals.len(),
{
    if globals.len() == 0 {
        Seq::empty()
    } else {
        let g = globals.last();
        reflected_globals(globals.drop_last()) + if g.group >= 3 {
            reflected(g.ty, g.group, g.binding, name_or_empty(g.name), None)
        } else {
            Seq::empty()
        }
    }
}

/// The material variables of a shader whose bound globals are `globals`.
pub fn material_variables(globals: &Vec<GlobalBinding>) -> (r: Vec<ShaderVariableDecl>)
    ensures
        r@.map_values(|d: ShaderVariableDecl| decl_view(d)) == reflected_globals(globals@),
{
    let mut out: Vec<ShaderVariableDecl> = Vec::new();
    let mut i: usize = 0;
    while i < globals.len()
        invariant
            i <= globals@.len(),
            out@.map_values(|d: ShaderVariableDecl| decl_view(d)) == reflected_globals(globals@.take(i as int)),
        decreases globals@.len() - i,
    {
        proof {
            assert(globals@.take(i as int + 1).drop_last() =~= globals@.take(i as int));
        }
        let g = &globals[i];
        if g.group >= 3 {
            let name = option_name(&g.name);
            shader_variable(&g.ty, g.group, g.binding, name, None, &mut out);
        }
        proof {
            assert(out@.map_values(|d: ShaderVariableDecl| decl_view(d)) =~= reflected_globals(globals@.take(i as int + 1)));
        }
        i = i + 1;
    }
    proof {
        assert(globals@.take(globals@.len() as int) =~= globals@);
    }
    out
}

} // verus!
