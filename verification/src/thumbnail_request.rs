use vstd::prelude::*;
use crate::thumbnail_key::ThumbnailRequest;
use crate::text::{uuid_text, hex_fixed, decimal, uuid_string, push_hex_fixed, push_decimal, string_push, string_push_str};

verus! {

/// Smallest thumbnail edge length in pixels.
pub const THUMBNAIL_MIN_SIZE: u32 = 64;
/// Largest thumbnail edge length in pixels.
pub const THUMBNAIL_MAX_SIZE: u32 = 512;
/// Default thumbnail edge length in pixels.
pub const THUMBNAIL_DEFAULT_SIZE: u32 = 512;

/// Type UUID of texture assets.
pub const TEXTURE_TYPE_UUID: u128 = 0x8ba4ccec_85ab_45f5_b4ee_2e803ef548a2;
/// Type UUID of material assets.
pub const MATERIAL_TYPE_UUID: u128 = 0xf98a7f41_84d4_482d_b7af_a670b07035ae;
/// Type UUID of mesh assets.
pub const MESH_TYPE_UUID: u128 = 0x792d264b_de6f_4431_b59f_76f18fdb3bfe;
/// Type UUID of skybox assets.
pub const SKYBOX_TYPE_UUID: u128 = 0xbdb5dd3a_cca4_453d_8260_ff2bdf2a05b2;

/// The asset types that have thumbnails. The prefab type is defined by the
/// scene module, so it is given when the set is made.
#[derive(Clone, Copy, Debug, PartialEq, Eq, Structural)]
pub struct ThumbnailAssetTypes {
    pub texture: u128,
    pub material: u128,
    pub mesh: u128,
    pub prefab: u128,
    pub skybox: u128,
}

impl ThumbnailAssetTypes {
    /// The engine's asset types, with `prefab` as the prefab type.
    pub fn with_prefab(prefab: u128) -> (r: ThumbnailAssetTypes)
        ensures
            r == (ThumbnailAssetTypes {
                texture: TEXTURE_TYPE_UUID,
                material: MATERIAL_TYPE_UUID,
                mesh: MESH_TYPE_UUID,
                prefab,
                skybox: SKYBOX_TYPE_UUID,
            }),
    {
        ThumbnailAssetTypes {
            texture: TEXTURE_TYPE_UUID,
            material: MATERIAL_TYPE_UUID,
            mesh: MESH_TYPE_UUID,
            prefab,
            skybox: SKYBOX_TYPE_UUID,
        }
    }

    pub open spec fn supports(&self, t: u128) -> bool {
        t == self.texture || t == self.material || t == self.mesh || t == self.prefab || t == self.skybox
    }

    /// The folder name of asset type `t` in the thumbnail cache.
    pub open spec fn type_name_of(&self, t: u128) -> Seq<char> {
        if t == self.texture {
            "texture"@
        } else if t == self.material {
            "material"@
        } else if t == self.mesh {
            "mesh"@
        } else if t == self.prefab {
            "prefab"@
        } else if t == self.skybox {
            "skybox"@
        } else {
            "unknown"@
        }
    }

    /// Whether assets of type `asset_type` get thumbnails.
    pub fn is_supported_asset_type(&self, asset_type: u128) -> (r: bool)
        ensures
            r == self.supports(asset_type),
    {
        asset_type == self.texture || asset_type == self.material || asset_type == self.mesh
            || asset_type == self.prefab || asset_type == self.skybox
    }

    /// The name of asset type `asset_type`: `texture`, `material`, `mesh`,
    /// `prefab`, `skybox`, or `unknown` for any other type.
    pub fn thumbnail_asset_type_name(&self, asset_type: u128) -> (r: &'static str)
        ensures
            r@ == self.type_name_of(asset_type),
    {
        if asset_type == self.texture {
            "texture"
        } else if asset_type == self.material {
            "material"
        } else if asset_type == self.mesh {
            "mesh"
        } else if asset_type == self.prefab {
            "prefab"
        } else if asset_type == self.skybox {
            "skybox"
        } else {
            "unknown"
        }
    }
}

/// `size_px` clamped to `[THUMBNAIL_MIN_SIZE, THUMBNAIL_MAX_SIZE]`.
pub open spec fn clamp_size(size_px: u32) -> u32 {
    if size_px < THUMBNAIL_MIN_SIZE {
        THUMBNAIL_MIN_SIZE
    } else if size_px > THUMBNAIL_MAX_SIZE {
        THUMBNAIL_MAX_SIZE
    } else {
        size_px
    }
}

/// The thumbnail edge length used for a requested `size_px`.
pub fn sanitized_size_px(size_px: u32) -> (r: u32)
    ensures
        r == clamp_size(size_px),
        THUMBNAIL_MIN_SIZE <= r <= THUMBNAIL_MAX_SIZE,
{
    if size_px < THUMBNAIL_MIN_SIZE {
        THUMBNAIL_MIN_SIZE
    } else if size_px > THUMBNAIL_MAX_SIZE {
        THUMBNAIL_MAX_SIZE
    } else {
        size_px
    }
}

/// `frame-margin-` followed by the frame margin in thousandths.
pub open spec fn frame_margin_key_of(millis: u32) -> Seq<char> {
    "frame-margin-"@ + decimal(millis as nat)
}

/// The cache folder of a frame margin of `millis` thousandths.
pub fn frame_margin_cache_key(millis: u32) -> (r: String)
    ensures
        r@ == frame_margin_key_of(millis),
{
    let mut s = String::new();
    string_push_str(&mut s, "frame-margin-");
    push_decimal(&mut s, millis as u64);
    proof {
        assert(s@ =~= frame_margin_key_of(millis));
    }
    s
}

/// The edge length followed by `px`.
pub open spec fn size_folder_of(size_px: u32) -> Seq<char> {
    decimal(size_px as nat) + "px"@
}

/// The cache folder of thumbnails `size_px` pixels wide.
pub fn size_folder(size_px: u32) -> (r: String)
    ensures
        r@ == size_folder_of(size_px),
{
    let mut s = String::new();
    push_decimal(&mut s, size_px as u64);
    string_push_str(&mut s, "px");
    s
}

/// `<asset uuid>-<source version as 16 hex digits>.png`.
pub open spec fn cache_file_name_of(asset_id: u128, source_version: u64) -> Seq<char> {
    uuid_text(asset_id) + seq!['-'] + hex_fixed(source_version as nat, 16) + ".png"@
}

/// The file name under which the thumbnail of `request` is cached.
pub fn cache_file_name(request: &ThumbnailRequest) -> (r: String)
    ensures
        r@ == cache_file_name_of(request.asset_id, request.source_version),
{
    let mut s = uuid_string(request.asset_id);
    string_push(&mut s, '-');
    push_hex_fixed(&mut s, request.source_version as u128, 16);
    string_push_str(&mut s, ".png");
    proof {
        assert(s@ =~= cache_file_name_of(request.asset_id, request.source_version));
    }
    s
}

/// The path of the cached thumbnail of `request` below the project's cache
/// root: `<size>px/frame-margin-<millis>/<type name>/<file name>`.
pub open spec fn cache_relative_path_of(
    types: ThumbnailAssetTypes,
    size_px: u32,
    margin_millis: u32,
    request: ThumbnailRequest,
) -> Seq<char> {
    size_folder_of(size_px) + seq!['/'] + frame_margin_key_of(margin_millis) + seq!['/']
        + types.type_name_of(request.asset_type) + seq!['/'] + cache_file_name_of(
        request.asset_id,
        request.source_version,
    )
}

/// The cache path of `request` for thumbnails of `size_px` pixels and a frame
/// margin of `margin_millis` thousandths, relative to the project cache root.
pub fn cache_relative_path(
    types: &ThumbnailAssetTypes,
    size_px: u32,
    margin_millis: u32,
    request: &ThumbnailRequest,
) -> (r: String)
    ensures
        r@ == cache_relative_path_of(*types, size_px, margin_millis, *request),
{
    let mut s = size_folder(size_px);
    string_push(&mut s, '/');
    let key = frame_margin_cache_key(margin_millis);
    string_push_str(&mut s, key.as_str());
    string_push(&mut s, '/');
    string_push_str(&mut s, types.thumbnail_asset_type_name(request.asset_type));
    string_push(&mut s, '/');
    let name = cache_file_name(request);
    string_push_str(&mut s, name.as_str());
    proof {
        assert(s@ =~= cache_relative_path_of(*types, size_px, margin_millis, *request));
    }
    s
}

/// The text naming the source of `request`: its path, or `<unknown>`.
pub fn thumbnail_source_label(request: &ThumbnailRequest) -> (r: String)
    ensures
        r@ == match request.source_path {
            Some(p) => p@,
            None => "<unknown>"@,
        },
{
    match &request.source_path {
        Some(p) => p.clone(),
        None => {
            let mut s = String::new();
            string_push_str(&mut s, "<unknown>");
            s
        },
    }
}

/// A clamped size lies within the thumbnail size range, a size in that range
/// is kept, and clamping again changes nothing.
pub proof fn law_clamped_size(size_px: u32)
    ensures
        THUMBNAIL_MIN_SIZE <= clamp_size(size_px) <= THUMBNAIL_MAX_SIZE,
        THUMBNAIL_MIN_SIZE <= size_px <= THUMBNAIL_MAX_SIZE ==> clamp_size(size_px) == size_px,
        clamp_size(clamp_size(size_px)) == clamp_size(size_px),
{
}

/// The engine's thumbnail types: textures, materials, meshes, skyboxes and
/// prefabs get thumbnails, each under its own folder name; with a prefab
/// type other than the nil UUID, the nil UUID gets none and is `unknown`
/// (a skybox is named `skybox` when the prefab type is not the skybox type).
pub proof fn law_thumbnail_types(types: ThumbnailAssetTypes)
    requires
        types.texture == TEXTURE_TYPE_UUID,
        types.material == MATERIAL_TYPE_UUID,
        types.mesh == MESH_TYPE_UUID,
        types.skybox == SKYBOX_TYPE_UUID,
    ensures
        types.supports(TEXTURE_TYPE_UUID),
        types.supports(MATERIAL_TYPE_UUID),
        types.supports(MESH_TYPE_UUID),
        types.supports(SKYBOX_TYPE_UUID),
        types.supports(types.prefab),
        types.type_name_of(TEXTURE_TYPE_UUID) == "texture"@,
        types.type_name_of(MATERIAL_TYPE_UUID) == "material"@,
        types.type_name_of(MESH_TYPE_UUID) == "mesh"@,
        types.prefab != SKYBOX_TYPE_UUID ==> types.type_name_of(SKYBOX_TYPE_UUID) == "skybox"@,
        types.prefab != 0 ==> !types.supports(0),
        types.prefab != 0 ==> types.type_name_of(0) == "unknown"@,
{
}

} // verus!
