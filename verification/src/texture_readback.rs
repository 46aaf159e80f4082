use vstd::prelude::*;
use crate::text::{string_push_str, same_text};
use crate::readback::{ReadbackLayout, aligned, size_error_text, readback_layout};

verus! {

/// The dimension of a texture.
#[derive(Debug, Clone, Copy, PartialEq, Eq, Structural)]
pub enum TextureDimension {
    D1,
    D2,
    D3,
}

/// What read-back needs to know of a texture: the name of its pixel format,
/// its dimension, its size in pixels and layers, and its sample count.
pub struct TextureDescription {
    pub format: String,
    pub dimension: TextureDimension,
    pub width: u32,
    pub height: u32,
    pub depth_or_array_layers: u32,
    pub sample_count: u32,
}

/// The text of the error for a texture whose pixel format is not RGBA8.
pub open spec fn format_error_text(format: Seq<char>) -> Seq<char> {
    "thumbnail cache requires Rgba8Unorm textures, got "@ + format
}

/// The text of the error for a texture that is not one single-sample 2D
/// image.
pub open spec fn shape_error_text() -> Seq<char> {
    "thumbnail cache requires a single-sample 2D texture"@
}

/// The texture is one 2D image with one sample per pixel.
pub open spec fn single_sample_2d(desc: TextureDescription) -> bool {
    desc.dimension == TextureDimension::D2 && desc.depth_or_array_layers == 1 && desc.sample_count == 1
}

/// The read-back layout of the texture `desc`, checked in turn: its format
/// must be `Rgba8Unorm`, it must be a single-sample 2D texture of one layer,
/// and it must measure `expected_size_px` on both sides (see
/// `readback_layout`).
pub fn texture_readback_layout(desc: &TextureDescription, expected_size_px: u32, alignment: u32) -> (r: Result<
    ReadbackLayout,
    String,
>)
    requires
        alignment > 0,
        expected_size_px * 4 <= u32::MAX,
        aligned((expected_size_px * 4) as nat, alignment as nat) <= u32::MAX,
    ensures
        match r {
            Ok(layout) => {
                &&& desc.format@ == "Rgba8Unorm"@
                &&& single_sample_2d(*desc)
                &&& desc.width == expected_size_px && desc.height == expected_size_px
                &&& layout.width == desc.width && layout.height == desc.height
                &&& layout.unpadded_bytes_per_row == desc.width * 4
                &&& layout.padded_bytes_per_row == aligned((desc.width * 4) as nat, alignment as nat)
            },
            Err(msg) => if desc.format@ != "Rgba8Unorm"@ {
                msg@ == format_error_text(desc.format@)
            } else if !single_sample_2d(*desc) {
                msg@ == shape_error_text()
            } else {
                &&& (desc.width != expected_size_px || desc.height != expected_size_px)
                &&& msg@ == size_error_text(expected_size_px, desc.width, desc.height)
            },
        },
{
    if !same_text(desc.format.as_str(), "Rgba8Unorm") {
        let mut msg = String::new();
        string_push_str(&mut msg, "thumbnail cache requires Rgba8Unorm textures, got ");
        string_push_str(&mut msg, desc.format.as_str());
        proof {
            assert(msg@ =~= format_error_text(desc.format@));
        }
        return Err(msg);
    }
    if desc.dimension != TextureDimension::D2 || desc.depth_or_array_layers != 1 || desc.sample_count != 1 {
        let mut msg = String::new();
        string_push_str(&mut msg, "thumbnail cache requires a single-sample 2D texture");
        proof {
            assert(msg@ =~= shape_error_text());
        }
        return Err(msg);
    }
    readback_layout(desc.width, desc.height, expected_size_px, alignment)
}

} // verus!
