//! Layout of the data that goes to and comes back from the GPU: the gradient
//! texture, the readback buffer and the sizes of the storage buffers.
//!
//! Component values are of any copyable type `T` here (the GPU uses `f32`);
//! this module only places them.

use vstd::prelude::*;

use crate::passes::{BUFFER_LEN, GRID_SIZE};

verus! {

/// The width and height, in texels, of the gradient texture.
pub const GRADIENT_TEXTURE_SIZE: usize = 256;

/// The components of one texel: red, green, blue, alpha.
pub const TEXEL_COMPONENTS: usize = 4;

/// The size in bytes of one `f32` component.
pub const COMPONENT_BYTES: usize = 4;

/// One row of texels: the red, green and blue of each colour, in order, each
/// followed by `alpha`.
pub open spec fn rgba_row<T>(colors: Seq<(T, T, T)>, alpha: T) -> Seq<T>
    decreases colors.len(),
{
    if colors.len() == 0 {
        Seq::empty()
    } else {
        let c = colors.last();
        rgba_row(colors.drop_last(), alpha) + seq![c.0, c.1, c.2, alpha]
    }
}

/// `rows` copies of `row`, one after the other.
pub open spec fn repeated<T>(row: Seq<T>, rows: nat) -> Seq<T>
    decreases rows,
{
    if rows == 0 {
        Seq::empty()
    } else {
        repeated(row, (rows - 1) as nat) + row
    }
}

/// A row of texels has four components per colour.
pub proof fn lemma_rgba_row_len<T>(colors: Seq<(T, T, T)>, alpha: T)
    ensures
        rgba_row(colors, alpha).len() == 4 * colors.len(),
    decreases colors.len(),
{
    if colors.len() > 0 {
        lemma_rgba_row_len(colors.drop_last(), alpha);
    }
}

/// Component `c` of texel `i` of a row is the matching component of colour
/// `i` (alpha for `c == 3`).
pub proof fn law_rgba_row_texel<T>(colors: Seq<(T, T, T)>, alpha: T, i: int)
    requires
        0 <= i < colors.len(),
    ensures
        rgba_row(colors, alpha).len() == 4 * colors.len(),
        rgba_row(colors, alpha)[4 * i] == colors[i].0,
        rgba_row(colors, alpha)[4 * i + 1] == colors[i].1,
        rgba_row(colors, alpha)[4 * i + 2] == colors[i].2,
        rgba_row(colors, alpha)[4 * i + 3] == alpha,
    decreases colors.len(),
{
    lemma_rgba_row_len(colors, alpha);
    let d = colors.drop_last();
    lemma_rgba_row_len(d, alpha);
    if i < colors.len() - 1 {
        law_rgba_row_texel(d, alpha, i);
    }
}

/// Each of the `rows` rows of `repeated(row, rows)` is `row`.
pub proof fn law_repeated_rows<T>(row: Seq<T>, rows: nat, r: int)
    requires
        0 <= r < rows,
    ensures
        repeated(row, rows).len() == rows * row.len(),
        repeated(row, rows).subrange(r * row.len(), (r + 1) * row.len()) == row,
    decreases rows,
{
    lemma_repeated_len(row, rows);
    let prev = (rows - 1) as nat;
    lemma_repeated_len(row, prev);
    assert((r + 1) * row.len() == r * row.len() + row.len()) by (nonlinear_arith);
    assert(prev * row.len() + row.len() == rows * row.len()) by (nonlinear_arith)
        requires
            prev + 1 == rows,
    ;
    if r < prev {
        law_repeated_rows(row, prev, r);
        assert((r + 1) * row.len() <= prev * row.len()) by (nonlinear_arith)
            requires
                r + 1 <= prev,
        ;
        assert(repeated(row, rows).subrange(r * row.len(), (r + 1) * row.len()) =~= repeated(
            row,
            prev,
        ).subrange(r * row.len(), (r + 1) * row.len()));
    } else {
        assert(repeated(row, rows).subrange(r * row.len(), (r + 1) * row.len()) =~= row);
    }
}

/// `repeated(row, rows)` has `rows` times the length of `row`.
pub proof fn lemma_repeated_len<T>(row: Seq<T>, rows: nat)
    ensures
        repeated(row, rows).len() == rows * row.len(),
    decreases rows,
{
    if rows > 0 {
        let prev = (rows - 1) as nat;
        lemma_repeated_len(row, prev);
        assert(repeated(row, rows) == repeated(row, prev) + row);
        assert(rows * row.len() == prev * row.len() + row.len()) by (nonlinear_arith)
            requires
                prev + 1 == rows,
        ;
    } else {
        assert(repeated(row, rows) == Seq::<T>::empty());
        assert(rows * row.len() == 0) by (nonlinear_arith)
            requires
                rows == 0,
        ;
    }
}

/// The data of a texture of `rows` identical rows, each holding `colors` as
/// texels with the given alpha, row after row.
pub fn gradient_texture_data<T: Copy>(colors: &Vec<(T, T, T)>, alpha: T, rows: usize) -> (r: Vec<T>)
    requires
        4 * colors@.len() * rows <= usize::MAX,
    ensures
        r@ == repeated(rgba_row(colors@, alpha), rows as nat),
{
    let mut row: Vec<T> = Vec::new();
    for i in 0..colors.len()
        invariant
            row@ == rgba_row(colors@.take(i as int), alpha),
    {
        let c = colors[i];
        proof {
            assert(colors@.take(i + 1).drop_last() =~= colors@.take(i as int));
        }
        row.push(c.0);
        row.push(c.1);
        row.push(c.2);
        row.push(alpha);
        proof {
            assert(row@ =~= rgba_row(colors@.take(i + 1), alpha));
        }
    }
    proof {
        assert(colors@.take(colors@.len() as int) =~= colors@);
        lemma_rgba_row_len(colors@, alpha);
    }
    let mut data: Vec<T> = Vec::new();
    for k in 0..rows
        invariant
            row@ == rgba_row(colors@, alpha),
            row@.len() == 4 * colors@.len(),
            4 * colors@.len() * rows <= usize::MAX,
            data@ == repeated(row@, k as nat),
    {
        for i in 0..row.len()
            invariant
                data@ == repeated(row@, k as nat) + row@.take(i as int),
        {
            data.push(row[i]);
            proof {
                assert(row@.take(i + 1) =~= row@.take(i as int).push(row@[i as int]));
                assert(data@ =~= repeated(row@, k as nat) + row@.take(i + 1));
            }
        }
        proof {
            assert(row@.take(row@.len() as int) =~= row@);
        }
    }
    data
}

/// The bytes per row of a texture `width` texels wide with four `f32`
/// components per texel.
pub fn texture_bytes_per_row(width: u32) -> (r: u32)
    requires
        width * 16 <= u32::MAX,
    ensures
        r == width * (TEXEL_COMPONENTS * COMPONENT_BYTES),
{
    width * 16
}

/// The words of a byte buffer read back from the GPU, one per `f32` value.
pub fn split_words(bytes: &Vec<u8>) -> (r: Vec<[u8; 4]>)
    requires
        bytes@.len() % 4 == 0,
    ensures
        r@.len() == bytes@.len() / 4,
        forall|k: int| 0 <= k < r@.len() ==> (#[trigger] r@[k])@ == bytes@.subrange(4 * k, 4 * k + 4),
{
    let n = bytes.len() / 4;
    let mut r: Vec<[u8; 4]> = Vec::new();
    for k in 0..n
        invariant
            n == bytes@.len() / 4,
            bytes@.len() % 4 == 0,
            r@.len() == k,
            forall|j: int| 0 <= j < k ==> (#[trigger] r@[j])@ == bytes@.subrange(4 * j, 4 * j + 4),
    {
        assert(4 * k + 4 <= bytes@.len()) by (nonlinear_arith)
            requires
                k < n,
                n == bytes@.len() / 4,
        ;
        assert(bytes@.len() == bytes.len());
        let b = 4 * k;
        let w = [bytes[b], bytes[b + 1], bytes[b + 2], bytes[b + 3]];
        proof {
            assert(w@ =~= bytes@.subrange(4 * k, 4 * k + 4));
        }
        r.push(w);
    }
    r
}

/// The size in bytes of one of the two grid storage buffers: the float and the
/// integer planes of a `GRID_SIZE`-deep grid of `BUFFER_LEN` by `BUFFER_LEN`
/// cells, four bytes per value.
pub fn grid_buffer_bytes() -> (r: usize)
    ensures
        r == 2 * COMPONENT_BYTES * GRID_SIZE * BUFFER_LEN * BUFFER_LEN,
{
    COMPONENT_BYTES * GRID_SIZE * BUFFER_LEN * BUFFER_LEN + COMPONENT_BYTES * GRID_SIZE
        * BUFFER_LEN * BUFFER_LEN
}

/// The number of cells of a square readback grid of side `size`.
pub fn readback_cells(size: u32) -> (r: usize)
    requires
        size * size <= u32::MAX,
    ensures
        r == size * size,
{
    (size * size) as usize
}

/// The size in bytes of the readback buffer of a square grid of side `size`,
/// one `f32` per cell.
pub fn readback_bytes(size: u32) -> (r: u64)
    requires
        size * size <= u32::MAX,
    ensures
        r == size * size * COMPONENT_BYTES,
{
    (readback_cells(size) as u64) * 4
}

} // verus!
