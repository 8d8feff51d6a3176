//! The data model shared by the render engine and the control plane:
//! physical devices, logical display surfaces ("virtuals") built from grids
//! of device pixels, and the string utilities that key them.

use vstd::prelude::*;

verus! {

/// A physical LED controller, keyed by its network address.
#[derive(Clone, Debug, PartialEq)]
pub struct Device {
    pub ip_address: String,
    pub name: String,
    pub led_count: u32,
}

/// One grid cell of a surface: a pixel of a device, or empty.
#[derive(Clone, Debug, PartialEq)]
pub struct MatrixCell {
    pub device_id: String,
    pub pixel: u32,
}

/// A logical display surface: a 2-D grid whose cells reference device
/// pixels.  A device-passthrough surface carries its device's address in
/// `is_device`.
#[derive(Clone, Debug, PartialEq)]
pub struct Virtual {
    pub id: String,
    pub name: String,
    pub matrix_data: Vec<Vec<Option<MatrixCell>>>,
    pub is_device: Option<String>,
}

/// Most pixels one frame can address: the transport's payload offset is a
/// 32-bit byte count and each pixel takes three bytes, so a larger surface
/// or device cannot be put on the wire.  Configuration beyond this is
/// stored but skipped by the renderer.
pub const MAX_PIXELS: usize = 1431655765;


/// A pixel count as the engine carries it: grids past the addressable
/// limit saturate to one past it, marking the surface as unrenderable.
pub open spec fn spec_cap_pc(n: int) -> int {
    if n > MAX_PIXELS {
        MAX_PIXELS + 1
    } else {
        n
    }
}

/// The non-empty cells in one grid row.
pub open spec fn spec_row_pixels(row: Seq<Option<MatrixCell>>) -> int
    decreases row.len(),
{
    if row.len() == 0 {
        0
    } else {
        spec_row_pixels(row.drop_last()) + if row.last() is Some {
            1int
        } else {
            0int
        }
    }
}

/// The non-empty cells of a whole grid, row-major.
pub open spec fn spec_grid_pixels(grid: Seq<Seq<Option<MatrixCell>>>) -> int
    decreases grid.len(),
{
    if grid.len() == 0 {
        0
    } else {
        spec_grid_pixels(grid.drop_last()) + spec_row_pixels(grid.last())
    }
}

/// The pixel count a surface's grid defines.
pub open spec fn spec_pixel_count(v: Virtual) -> int {
    spec_grid_pixels(v.matrix_data@.map_values(|row: Vec<Option<MatrixCell>>| row@))
}

proof fn lemma_row_pixels_nonneg(row: Seq<Option<MatrixCell>>)
    ensures
        0 <= spec_row_pixels(row) <= row.len(),
    decreases row.len(),
{
    if row.len() > 0 {
        lemma_row_pixels_nonneg(row.drop_last());
    }
}

proof fn lemma_grid_pixels_nonneg(grid: Seq<Seq<Option<MatrixCell>>>)
    ensures
        0 <= spec_grid_pixels(grid),
    decreases grid.len(),
{
    if grid.len() > 0 {
        lemma_grid_pixels_nonneg(grid.drop_last());
        lemma_row_pixels_nonneg(grid.last());
    }
}

/// Counts the non-empty cells of a surface's grid, giving up once the count
/// passes `MAX_PIXELS`: the result is the pixel count when that is within
/// bounds, and `MAX_PIXELS + 1` when the grid is oversized.
pub fn pixel_count_capped(v: &Virtual) -> (n: usize)
    ensures
        spec_pixel_count(*v) <= MAX_PIXELS ==> n == spec_pixel_count(*v),
        spec_pixel_count(*v) > MAX_PIXELS ==> n == MAX_PIXELS + 1,
{
    let ghost all = v.matrix_data@.map_values(|row: Vec<Option<MatrixCell>>| row@);
    let mut n: usize = 0;
    let mut i: usize = 0;
    while i < v.matrix_data.len()
        invariant
            i <= v.matrix_data@.len(),
            all == v.matrix_data@.map_values(|row: Vec<Option<MatrixCell>>| row@),
            all.len() == v.matrix_data@.len(),
            n <= MAX_PIXELS,
            n as int == spec_grid_pixels(all.take(i as int)),
        decreases v.matrix_data@.len() - i,
    {
        let row = &v.matrix_data[i];
        let mut j: usize = 0;
        while j < row.len()
            invariant
                j <= row@.len(),
                i < v.matrix_data@.len(),
                all == v.matrix_data@.map_values(|r: Vec<Option<MatrixCell>>| r@),
                all.len() == v.matrix_data@.len(),
                row@ == all[i as int],
                n <= MAX_PIXELS,
                n as int == spec_grid_pixels(all.take(i as int)) + spec_row_pixels(
                    row@.take(j as int),
                ),
            decreases row@.len() - j,
        {
            if row[j].is_some() {
                if n == MAX_PIXELS {
                    proof {
                        lemma_prefix_le_grid(all, i as int, j + 1);
                        assert(row@.take(j + 1).drop_last() =~= row@.take(j as int));
                    }
                    return MAX_PIXELS + 1;
                }
                n += 1;
            }
            proof {
                assert(row@.take(j + 1).drop_last() =~= row@.take(j as int));
                assert(row@.take(j + 1).last() == row@[j as int]);
            }
            j += 1;
        }
        proof {
            assert(all.take(i + 1).drop_last() =~= all.take(i as int));
            assert(all.take(i + 1).last() == all[i as int]);
            assert(row@.take(row@.len() as int) =~= row@);
        }
        i += 1;
    }
    proof {
        assert(all.take(all.len() as int) =~= all);
    }
    n
}

/// A partial count never exceeds the full count: the grid prefix up to row
/// `i` plus the row prefix up to cell `j` stays at or below the whole grid.
proof fn lemma_prefix_le_grid(all: Seq<Seq<Option<MatrixCell>>>, i: int, j: int)
    requires
        0 <= i < all.len(),
        0 <= j <= all[i].len(),
    ensures
        spec_grid_pixels(all.take(i)) + spec_row_pixels(all[i].take(j)) <= spec_grid_pixels(all),
{
    lemma_row_prefix_le(all[i], j);
    lemma_grid_prefix_row_le(all, i);
}

proof fn lemma_row_prefix_le(row: Seq<Option<MatrixCell>>, j: int)
    requires
        0 <= j <= row.len(),
    ensures
        spec_row_pixels(row.take(j)) <= spec_row_pixels(row),
    decreases row.len() - j,
{
    if j < row.len() {
        lemma_row_prefix_le(row, j + 1);
        assert(row.take(j + 1).drop_last() =~= row.take(j));
        lemma_row_pixels_nonneg(row.take(j + 1));
    } else {
        assert(row.take(j) =~= row);
    }
}

proof fn lemma_grid_prefix_row_le(all: Seq<Seq<Option<MatrixCell>>>, i: int)
    requires
        0 <= i < all.len(),
    ensures
        spec_grid_pixels(all.take(i)) + spec_row_pixels(all[i]) <= spec_grid_pixels(all),
    decreases all.len() - i,
{
    if i + 1 == all.len() {
        assert(all.take(i + 1) =~= all);
        assert(all.take(i + 1).drop_last() =~= all.take(i));
    } else {
        lemma_grid_prefix_row_le(all, i + 1);
        assert(all.take(i + 1).drop_last() =~= all.take(i));
        assert(all.take(i + 1).last() == all[i]);
        lemma_row_pixels_nonneg(all[i + 1]);
        assert(spec_grid_pixels(all.take(i + 1)) + spec_row_pixels(all[i + 1]) <= spec_grid_pixels(
            all,
        ));
        lemma_row_pixels_nonneg(all[i]);
    }
}

/// Whether two strings hold the same characters.
pub fn str_eq(a: &str, b: &str) -> (r: bool)
    ensures
        r == (a@ == b@),
{
    let n = a.unicode_len();
    if n != b.unicode_len() {
        return false;
    }
    let mut i: usize = 0;
    while i < n
        invariant
            n == a@.len(),
            n == b@.len(),
            i <= n,
            forall|k: int| 0 <= k < i ==> a@[k] == b@[k],
        decreases n - i,
    {
        if a.get_char(i) != b.get_char(i) {
            return false;
        }
        i += 1;
    }
    proof {
        assert(a@ =~= b@);
    }
    true
}


/// The grid of a surface as a sequence of rows of cells.
pub open spec fn grid_view(g: Seq<Vec<Option<MatrixCell>>>) -> Seq<Seq<Option<MatrixCell>>> {
    g.map_values(|r: Vec<Option<MatrixCell>>| r@)
}

/// Everything a surface holds, as one mathematical value.
pub open spec fn virtual_view(v: Virtual) -> (String, String, Seq<Seq<Option<MatrixCell>>>, Option<
    String,
>) {
    (v.id, v.name, grid_view(v.matrix_data@), v.is_device)
}

/// Whether two surfaces hold the same content.
pub open spec fn virtual_eq(a: Virtual, b: Virtual) -> bool {
    virtual_view(a) == virtual_view(b)
}

/// The surfaces of a list, as mathematical values.
pub open spec fn virtuals_view(s: Seq<Virtual>) -> Seq<
    (String, String, Seq<Seq<Option<MatrixCell>>>, Option<String>),
> {
    s.map_values(|v: Virtual| virtual_view(v))
}

} // verus!
