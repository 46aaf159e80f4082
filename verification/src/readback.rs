use vstd::prelude::*;
use crate::text::{push_decimal, decimal, string_push_str};

verus! {

/// `value` rounded up to a multiple of `alignment`.
pub open spec fn aligned(value: nat, alignment: nat) -> nat
    recommends
        alignment > 0,
{
    ((((value + alignment - 1) as nat) / alignment) * alignment) as nat
}

/// `value` rounded up to the next multiple of `alignment`.
pub fn align_to(value: u32, alignment: u32) -> (r: u32)
    requires
        alignment > 0,
        aligned(value as nat, alignment as nat) <= u32::MAX,
    ensures
        r == aligned(value as nat, alignment as nat),
{
    let v = value as u64;
    let a = alignment as u64;
    let q: u64 = v / a + if v % a == 0 {
        0
    } else {
        1
    };
    proof {
        let vi = v as int;
        let ai = a as int;
        assert(q as int == (vi + ai - 1) / ai) by (nonlinear_arith)
            requires
                ai > 0,
                vi >= 0,
                q as int == vi / ai + if vi % ai == 0 {
                    0int
                } else {
                    1int
                },
        {
            assert(vi == ai * (vi / ai) + vi % ai);
            assert(0 <= vi % ai < ai);
            if vi % ai == 0 {
                assert(vi + ai - 1 == ai * (vi / ai) + (ai - 1));
            } else {
                assert(vi + ai - 1 == ai * (vi / ai + 1) + (vi % ai - 1));
            }
        }
        assert(q * a <= u32::MAX);
    }
    (q * a) as u32
}

/// Every multiple that `align_to` gives is at least the value, a multiple of
/// the alignment, and less than one alignment above the value.
pub proof fn law_aligned_is_next_multiple(value: nat, alignment: nat)
    requires
        alignment > 0,
    ensures
        aligned(value, alignment) >= value,
        aligned(value, alignment) % alignment == 0,
        aligned(value, alignment) < value + alignment,
{
    let a = alignment as int;
    let v = value as int;
    let q = (v + a - 1) / a;
    assert(q * a >= v && (q * a) % a == 0 && q * a < v + a) by (nonlinear_arith)
        requires
            a > 0,
            v >= 0,
            q == (v + a - 1) / a,
    {
        assert(v + a - 1 == a * q + (v + a - 1) % a);
        assert(0 <= (v + a - 1) % a < a);
        assert((q * a) % a == 0);
    }
}

/// The layout of a texture read back into a buffer: rows of 4-byte pixels,
/// each row padded to the copy alignment.
#[derive(Debug, Clone, Copy, PartialEq, Eq, Structural)]
pub struct ReadbackLayout {
    pub width: u32,
    pub height: u32,
    pub unpadded_bytes_per_row: u32,
    pub padded_bytes_per_row: u32,
}

/// The text of the error for a texture of the wrong size.
pub open spec fn size_error_text(expected: u32, width: u32, height: u32) -> Seq<char> {
    "thumbnail cache requires "@ + decimal(expected as nat) + "x"@ + decimal(expected as nat)
        + " textures, got "@ + decimal(width as nat) + "x"@ + decimal(height as nat)
}

/// The read-back layout of a `width` x `height` texture, which must measure
/// `expected_size_px` on both sides; rows are padded to `alignment` bytes.
pub fn readback_layout(width: u32, height: u32, expected_size_px: u32, alignment: u32) -> (r: Result<
    ReadbackLayout,
    String,
>)
    requires
        alignment > 0,
        expected_size_px * 4 <= u32::MAX,
        aligned((expected_size_px * 4) as nat, alignment as nat) <= u32::MAX,
    ensures
        match r {
            Ok(layout) => {
                &&& width == expected_size_px && height == expected_size_px
                &&& layout.width == width && layout.height == height
                &&& layout.unpadded_bytes_per_row == width * 4
                &&& layout.padded_bytes_per_row == aligned((width * 4) as nat, alignment as nat)
            },
            Err(msg) => {
                &&& (width != expected_size_px || height != expected_size_px)
                &&& msg@ == size_error_text(expected_size_px, width, height)
            },
        },
{
    if width != expected_size_px || height != expected_size_px {
        let mut msg = String::new();
        string_push_str(&mut msg, "thumbnail cache requires ");
        push_decimal(&mut msg, expected_size_px as u64);
        string_push_str(&mut msg, "x");
        push_decimal(&mut msg, expected_size_px as u64);
        string_push_str(&mut msg, " textures, got ");
        push_decimal(&mut msg, width as u64);
        string_push_str(&mut msg, "x");
        push_decimal(&mut msg, height as u64);
        proof {
            assert(msg@ =~= size_error_text(expected_size_px, width, height));
        }
        return Err(msg);
    }
    let unpadded = width * 4;
    let padded = align_to(unpadded, alignment);
    Ok(ReadbackLayout { width, height, unpadded_bytes_per_row: unpadded, padded_bytes_per_row: padded })
}

/// The pixel rows `0..rows` of a padded buffer, each cut to its unpadded
/// length, in order.
pub open spec fn unpadded_rows(data: Seq<u8>, padded: nat, unpadded: nat, rows: nat) -> Seq<u8>
    decreases rows,
{
    if rows == 0 {
        Seq::empty()
    } else {
        let row = (rows - 1) as nat;
        unpadded_rows(data, padded, unpadded, row) + data.subrange(
            (row * padded) as int,
            (row * padded + unpadded) as int,
        )
    }
}

proof fn lemma_unpadded_rows_len(data: Seq<u8>, padded: nat, unpadded: nat, rows: nat)
    requires
        unpadded <= padded,
        rows * padded <= data.len(),
    ensures
        unpadded_rows(data, padded, unpadded, rows).len() == rows * unpadded,
    decreases rows,
{
    if rows > 0 {
        let row = (rows - 1) as nat;
        assert(row * padded + padded == rows * padded) by (nonlinear_arith)
            requires
                row == rows - 1,
        ;
        assert(row * unpadded + unpadded == rows * unpadded) by (nonlinear_arith)
            requires
                row == rows - 1,
        ;
        lemma_unpadded_rows_len(data, padded, unpadded, row);
        assert(row * padded + unpadded <= data.len());
        assert(data.subrange((row * padded) as int, (row * padded + unpadded) as int).len() == unpadded);
        assert(unpadded_rows(data, padded, unpadded, rows) == unpadded_rows(data, padded, unpadded, row)
            + data.subrange((row * padded) as int, (row * padded + unpadded) as int));
    } else {
        assert(rows * unpadded == 0) by (nonlinear_arith)
            requires
                rows == 0,
        ;
    }
}

/// The pixels of a read-back buffer without the row padding.
pub fn unpad_rows(data: &[u8], layout: ReadbackLayout) -> (r: Vec<u8>)
    requires
        layout.unpadded_bytes_per_row <= layout.padded_bytes_per_row,
        layout.padded_bytes_per_row * layout.height <= data@.len(),
    ensures
        r@ == unpadded_rows(
            data@,
            layout.padded_bytes_per_row as nat,
            layout.unpadded_bytes_per_row as nat,
            layout.height as nat,
        ),
        r@.len() == layout.unpadded_bytes_per_row * layout.height,
{
    let padded = layout.padded_bytes_per_row as usize;
    let unpadded = layout.unpadded_bytes_per_row as usize;
    let height = layout.height as usize;
    let dlen: usize = data.len();
    let mut pixels: Vec<u8> = Vec::new();
    let mut row: usize = 0;
    while row < height
        invariant
            padded == layout.padded_bytes_per_row,
            unpadded == layout.unpadded_bytes_per_row,
            height == layout.height,
            unpadded <= padded,
            padded * height <= data@.len(),
            dlen == data@.len(),
            row <= height,
            pixels@ == unpadded_rows(data@, padded as nat, unpadded as nat, row as nat),
        decreases height - row,
    {
        assert(row * padded + padded <= padded * height) by (nonlinear_arith)
            requires
                row < height,
        ;
        let start: usize = row * padded;
        let mut col: usize = 0;
        let ghost before = pixels@;
        while col < unpadded
            invariant
                padded == layout.padded_bytes_per_row,
                unpadded == layout.unpadded_bytes_per_row,
                unpadded <= padded,
                start + padded <= data@.len(),
                dlen == data@.len(),
                col <= unpadded,
                pixels@ == before + data@.subrange(start as int, start + col),
            decreases unpadded - col,
        {
            pixels.push(data[start + col]);
            col = col + 1;
            proof {
                assert(pixels@ =~= before + data@.subrange(start as int, start + col));
            }
        }
        row = row + 1;
        proof {
            assert((row - 1) as nat * padded as nat == start);
            assert(pixels@ =~= unpadded_rows(data@, padded as nat, unpadded as nat, row as nat));
        }
    }
    proof {
        assert(height * padded == padded * height) by (nonlinear_arith);
        assert(unpadded * height == height * unpadded) by (nonlinear_arith);
        lemma_unpadded_rows_len(data@, padded as nat, unpadded as nat, height as nat);
    }
    pixels
}

} // verus!
