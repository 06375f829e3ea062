use vstd::prelude::*;

use crate::grid::{col_of, deterministic, rendered, row_of};

verus! {

/// Any two complete rasters of one deterministic pixel function are equal.
/// Every strategy ensures `rendered`, so every strategy's buffer equals the
/// serial baseline's, and repeated runs of one strategy give the same buffer,
/// whatever order the workers ran in.
pub proof fn lemma_rendering_unique<F: Fn(u32, u32) -> u32>(
    pixel: &F,
    size: nat,
    a: Seq<u32>,
    b: Seq<u32>,
)
    requires
        deterministic(pixel),
        rendered(pixel, size, a),
        rendered(pixel, size, b),
    ensures
        a == b,
{
    assert forall|i: int| 0 <= i < a.len() implies a[i] == b[i] by {
        let x = col_of(size, i) as u32;
        let y = row_of(size, i) as u32;
        assert(pixel.ensures((x, y), a[i]));
        assert(pixel.ensures((x, y), b[i]));
    }
    assert(a =~= b);
}

/// A one-pixel raster holds the pixel value of column zero, row zero, which
/// is the corner `(re1, img1)` of the plane.
pub proof fn lemma_single_pixel<F: Fn(u32, u32) -> u32>(pixel: &F, image: Seq<u32>)
    requires
        rendered(pixel, 1, image),
    ensures
        image.len() == 1,
        pixel.ensures((0u32, 0u32), image[0]),
{
    assert(col_of(1, 0) == 0 && row_of(1, 0) == 0);
    assert(pixel.ensures((col_of(1, 0) as u32, row_of(1, 0) as u32), image[0]));
}

/// No gaps: where no pixel value can equal `sentinel`, no element of a
/// complete raster equals it, whatever the buffer held before.
pub proof fn lemma_no_sentinel_left<F: Fn(u32, u32) -> u32>(
    pixel: &F,
    size: nat,
    image: Seq<u32>,
    sentinel: u32,
)
    requires
        rendered(pixel, size, image),
        forall|x: u32, y: u32, v: u32| #[trigger] pixel.ensures((x, y), v) ==> v != sentinel,
    ensures
        forall|i: int| 0 <= i < image.len() ==> #[trigger] image[i] != sentinel,
{
    assert forall|i: int| 0 <= i < image.len() implies #[trigger] image[i] != sentinel by {
        assert(pixel.ensures((col_of(size, i) as u32, row_of(size, i) as u32), image[i]));
    }
}

/// The scanline chunks cover the buffer without overlap: each index of a
/// raster `size` pixels wide lies in exactly one chunk
/// `[y * size, y * size + size)`, the one of its row.
pub proof fn lemma_scanlines_partition(size: nat, i: int)
    requires
        size > 0,
        0 <= i < size * size,
    ensures
        0 <= row_of(size, i) < size,
        forall|y: int| #[trigger] (y * size) <= i < y * size + size <==> y == row_of(size, i),
{
    let q = row_of(size, i);
    vstd::arithmetic::div_mod::lemma_fundamental_div_mod(i, size as int);
    assert(0 <= q < size) by (nonlinear_arith)
        requires
            i == size * q + i % (size as int),
            0 <= i % (size as int) < size,
            0 <= i < size * size,
            size > 0,
    ;
    assert forall|y: int| #[trigger] (y * size) <= i < y * size + size <==> y == q by {
        if y * size <= i < y * size + size {
            vstd::arithmetic::div_mod::lemma_fundamental_div_mod_converse(
                i,
                size as int,
                y,
                i - y * size,
            );
        }
        if y == q {
            assert(q * size == size * q) by (nonlinear_arith);
        }
    }
}

/// Two different scanline chunks share no index, so no two row jobs ever
/// write the same element of the buffer.
pub proof fn lemma_chunks_disjoint(size: nat, y1: int, y2: int, i: int)
    requires
        size > 0,
        y1 != y2,
        y1 * size <= i < y1 * size + size,
    ensures
        !(y2 * size <= i < y2 * size + size),
{
    if y2 * size <= i < y2 * size + size {
        vstd::arithmetic::div_mod::lemma_fundamental_div_mod_converse(i, size as int, y1, i - y1 * size);
        vstd::arithmetic::div_mod::lemma_fundamental_div_mod_converse(i, size as int, y2, i - y2 * size);
    }
}

} // verus!
