//! Slice access: validation of slice requests, the overlapping-brick set,
//! and the byte-level scatter/gather between slice buffers and brick
//! buffers.
//!
//! These functions are pure: they compute over the layout and over brick
//! buffers that the embedding application has already fetched and
//! decompressed (or will compress and store afterwards). The application owns
//! the storage I/O and the concurrency; because assembly is a function of the
//! brick contents alone, the assembled slice is deterministic whatever order
//! the fetches complete in.

use crate::error::VdsError;
use crate::indexing::{
    all_positive, delin_index, delinearize, in_box, ints_of, lemma_delinearize_linearize,
    lemma_linearize_bounds, lemma_linearize_delinearize, lemma_product_pointwise_le,
    lemma_product_positive, lin_index, linearize, product_of, seq_product,
};
use crate::compression::CompressionMethod;
use crate::layout::{ceil_div, lemma_ceil_div_bounds, lemma_wf_counts_positive, VolumeDataLayout};
use crate::types::DataType;
use crate::utils::{dec_str, format_bytes, format_bytes_spec, u64_to_dec};
use vstd::arithmetic::div_mod::{
    lemma_div_is_ordered, lemma_div_pos_is_pos, lemma_fundamental_div_mod,
    lemma_fundamental_div_mod_converse,
};
use vstd::prelude::*;
use vstd::string::StringExecFns;

verus! {

/// Componentwise sum.
pub open spec fn vec_add(a: Seq<int>, b: Seq<int>) -> Seq<int> {
    Seq::new(a.len(), |i: int| a[i] + b[i])
}

/// Componentwise difference.
pub open spec fn vec_sub(a: Seq<int>, b: Seq<int>) -> Seq<int> {
    Seq::new(a.len(), |i: int| a[i] - b[i])
}

/// Componentwise quotient.
pub open spec fn vec_div(a: Seq<int>, b: Seq<int>) -> Seq<int> {
    Seq::new(a.len(), |i: int| a[i] / b[i])
}

/// Componentwise product.
pub open spec fn vec_mul(a: Seq<int>, b: Seq<int>) -> Seq<int> {
    Seq::new(a.len(), |i: int| a[i] * b[i])
}

/// A slice request is valid when it names each dimension once and is a
/// non-empty half-open box inside the volume.
pub open spec fn valid_slice(layout: VolumeDataLayout, min: Seq<int>, max: Seq<int>) -> bool {
    &&& min.len() == layout.dimensionality
    &&& max.len() == layout.dimensionality
    &&& forall|i: int|
        0 <= i < min.len() ==> 0 <= #[trigger] min[i] && min[i] < max[i] && max[i]
            <= layout.dims_spec()[i]
}

/// The lowest brick coordinate that a slice touches in each dimension.
pub open spec fn min_brick_spec(layout: VolumeDataLayout, min: Seq<int>) -> Seq<int> {
    vec_div(min, layout.brick_dims_spec())
}

/// The highest brick coordinate that a slice touches in each dimension.
pub open spec fn max_brick_spec(layout: VolumeDataLayout, max: Seq<int>) -> Seq<int> {
    Seq::new(max.len(), |i: int| (max[i] - 1) / layout.brick_dims_spec()[i])
}

/// Extent of the brick window a slice touches, in bricks per dimension.
pub open spec fn window_spec(layout: VolumeDataLayout, min: Seq<int>, max: Seq<int>) -> Seq<
    int,
> {
    Seq::new(
        min.len(),
        |i: int| max_brick_spec(layout, max)[i] - min_brick_spec(layout, min)[i] + 1,
    )
}

/// Extent of a slice in voxels per dimension.
pub open spec fn slice_extent(min: Seq<int>, max: Seq<int>) -> Seq<int> {
    vec_sub(max, min)
}

/// Number of bytes an assembled slice occupies.
pub open spec fn slice_bytes_spec(layout: VolumeDataLayout, min: Seq<int>, max: Seq<int>) -> int {
    seq_product(slice_extent(min, max)) * layout.elem_bytes_spec()
}

/// Position, within the row-major enumeration of the slice's brick window,
/// of the brick holding voxel `c`.
pub open spec fn brick_pos_of(
    layout: VolumeDataLayout,
    min: Seq<int>,
    max: Seq<int>,
    c: Seq<int>,
) -> int {
    linearize(
        vec_sub(vec_div(c, layout.brick_dims_spec()), min_brick_spec(layout, min)),
        window_spec(layout, min, max),
    )
}

/// Byte offset, within the buffer of the brick holding voxel `c`, of byte
/// `k` of that voxel.
pub open spec fn brick_byte_off(layout: VolumeDataLayout, c: Seq<int>, k: int) -> int {
    let bd = layout.brick_dims_spec();
    let local = vec_sub(c, vec_mul(vec_div(c, bd), bd));
    linearize(local, bd) * layout.elem_bytes_spec() + k
}

/// The bytes of the slice `[min, max)` assembled from the given brick
/// buffers.
///
/// `bricks` holds one entry per brick of the slice's brick window, in the
/// window's row-major order; `None` stands for a brick that was never
/// written, whose voxels read as zero. The slice is row-major in the
/// request's own dimension order, last dimension fastest.
pub open spec fn slice_spec(
    layout: VolumeDataLayout,
    min: Seq<int>,
    max: Seq<int>,
    bricks: Seq<Option<Seq<u8>>>,
) -> Seq<u8> {
    Seq::new(
        slice_bytes_spec(layout, min, max) as nat,
        |p: int|
            {
                let e = layout.elem_bytes_spec();
                let c = vec_add(min, delinearize(p / e, slice_extent(min, max)));
                match bricks[brick_pos_of(layout, min, max, c)] {
                    Some(buf) => buf[brick_byte_off(layout, c, p % e)],
                    Option::None => 0u8,
                }
            },
    )
}

/// Whether voxel `c` lies inside the half-open box `[min, max)`.
pub open spec fn voxel_in_slice(min: Seq<int>, max: Seq<int>, c: Seq<int>) -> bool {
    forall|i: int| 0 <= i < c.len() ==> min[i] <= #[trigger] c[i] < max[i]
}

/// The buffer of the brick at `bcoords` after the slice content `data` for
/// the region `[min, max)` is overlaid onto `old_brick`: bytes of voxels
/// inside the region are taken from `data`, all others keep their old value.
pub open spec fn overlay_spec(
    layout: VolumeDataLayout,
    bcoords: Seq<int>,
    old_brick: Seq<u8>,
    min: Seq<int>,
    max: Seq<int>,
    data: Seq<u8>,
) -> Seq<u8> {
    Seq::new(
        old_brick.len(),
        |p: int|
            {
                let e = layout.elem_bytes_spec();
                let bd = layout.brick_dims_spec();
                let local = delinearize(p / e, bd);
                let c = vec_add(vec_mul(bcoords, bd), local);
                if voxel_in_slice(min, max, c) {
                    data[linearize(vec_sub(c, min), slice_extent(min, max)) * e + p % e]
                } else {
                    old_brick[p]
                }
            },
    )
}

/// Geometry facts that every valid slice of a well-formed layout enjoys:
/// its brick window sits inside the volume's brick grid.
pub proof fn lemma_window_facts(layout: VolumeDataLayout, min: Seq<int>, max: Seq<int>)
    requires
        layout.wf(),
        valid_slice(layout, min, max),
    ensures
        all_positive(window_spec(layout, min, max)),
        all_positive(slice_extent(min, max)),
        forall|i: int|
            0 <= i < min.len() ==> 0 <= #[trigger] min_brick_spec(layout, min)[i]
                <= max_brick_spec(layout, max)[i] < layout.counts_spec()[i],
        forall|i: int|
            0 <= i < min.len() ==> #[trigger] window_spec(layout, min, max)[i]
                <= layout.counts_spec()[i],
        seq_product(window_spec(layout, min, max)) <= seq_product(layout.counts_spec()),
        forall|i: int|
            0 <= i < min.len() ==> #[trigger] slice_extent(min, max)[i]
                <= layout.dims_spec()[i],
        seq_product(slice_extent(min, max)) <= seq_product(layout.dims_spec()),
        slice_bytes_spec(layout, min, max) <= usize::MAX,
{
    let d = min.len() as int;
    let bd = layout.brick_dims_spec();
    let mnb = min_brick_spec(layout, min);
    let mxb = max_brick_spec(layout, max);
    let w = window_spec(layout, min, max);
    let ext = slice_extent(min, max);
    assert forall|i: int| 0 <= i < d implies 0 <= #[trigger] mnb[i] <= mxb[i]
        < layout.counts_spec()[i] by {
        let b = bd[i];
        let n = layout.dims_spec()[i];
        lemma_div_pos_is_pos(min[i], b);
        lemma_div_is_ordered(min[i], max[i] - 1, b);
        lemma_div_is_ordered(max[i] - 1, n - 1, b);
        let q = ceil_div(n, b);
        lemma_ceil_div_bounds(n, b);
        assert((q - 1) * b + (b - 1) == q * b - 1) by (nonlinear_arith);
        lemma_fundamental_div_mod_converse(q * b - 1, b, q - 1, b - 1);
        assert((q * b - 1) / b == q - 1);
        lemma_div_is_ordered(n - 1, q * b - 1, b);
        assert((n - 1) / b <= q - 1);
    }
    assert(all_positive(w));
    assert(all_positive(ext));
    assert forall|i: int| 0 <= i < d implies #[trigger] w[i] <= layout.counts_spec()[i] by {
        assert(0 <= mnb[i] <= mxb[i] < layout.counts_spec()[i]);
    }
    lemma_wf_counts_positive(layout);
    lemma_product_pointwise_le(w, layout.counts_spec());
    assert forall|i: int| 0 <= i < d implies #[trigger] ext[i] <= layout.dims_spec()[i] by {}
    assert(all_positive(layout.dims_spec()));
    lemma_product_pointwise_le(ext, layout.dims_spec());
    lemma_product_positive(ext);
    assert(seq_product(ext) * layout.elem_bytes_spec() <= seq_product(layout.dims_spec())
        * layout.elem_bytes_spec()) by (nonlinear_arith)
        requires
            seq_product(ext) <= seq_product(layout.dims_spec()),
            layout.elem_bytes_spec() >= 1,
    ;
}

/// Validate a slice request: each coordinate list must name each dimension
/// once, the box must be non-empty, and it must lie inside the volume.
/// Returns `Ok` exactly on valid requests, and fails before any brick is
/// touched otherwise.
pub fn validate_slice_request(
    layout: &VolumeDataLayout,
    min_coords: &Vec<usize>,
    max_coords: &Vec<usize>,
) -> (r: Result<(), VdsError>)
    requires
        layout.axes@.len() == layout.dimensionality,
    ensures
        r is Ok <==> valid_slice(*layout, ints_of(min_coords@), ints_of(max_coords@)),
        r is Err ==> (r->Err_0 is InvalidDimensions || r->Err_0 is OutOfBounds),
        (min_coords@.len() != layout.dimensionality || max_coords@.len()
            != layout.dimensionality) ==> (r is Err && r->Err_0 is InvalidDimensions),
        (min_coords@.len() == layout.dimensionality && max_coords@.len()
            == layout.dimensionality && (forall|i: int|
            0 <= i < min_coords@.len() ==> #[trigger] min_coords@[i] < max_coords@[i]) && r
            is Err) ==> r->Err_0 is OutOfBounds,
        (min_coords@.len() == layout.dimensionality && max_coords@.len()
            == layout.dimensionality && (exists|i: int|
            0 <= i < min_coords@.len() && #[trigger] min_coords@[i] >= max_coords@[i]) && (
        forall|i: int|
            0 <= i < max_coords@.len() ==> #[trigger] max_coords@[i]
                <= layout.axes@[i].num_samples)) ==> (r is Err
            && r->Err_0 is InvalidDimensions),
{
    if min_coords.len() != layout.dimensionality || max_coords.len() != layout.dimensionality {
        return Err(
            VdsError::InvalidDimensions(
                String::from_str("Coordinate dimensions don't match volume dimensionality"),
            ),
        );
    }
    let mut i: usize = 0;
    while i < layout.dimensionality
        invariant
            0 <= i <= layout.dimensionality,
            layout.axes@.len() == layout.dimensionality,
            min_coords@.len() == layout.dimensionality,
            max_coords@.len() == layout.dimensionality,
            forall|t: int|
                0 <= t < i ==> #[trigger] min_coords@[t] < max_coords@[t] && max_coords@[t]
                    <= layout.axes@[t].num_samples,
        decreases layout.dimensionality - i,
    {
        if min_coords[i] >= max_coords[i] {
            proof {
                assert(ints_of(min_coords@)[i as int] >= ints_of(max_coords@)[i as int]);
                assert(!valid_slice(*layout, ints_of(min_coords@), ints_of(max_coords@))) by {
                    if valid_slice(*layout, ints_of(min_coords@), ints_of(max_coords@)) {
                        assert(ints_of(min_coords@)[i as int] < ints_of(max_coords@)[i as int]);
                    }
                }
            }
            return Err(
                VdsError::InvalidDimensions(
                    String::from_str("Min coordinates must be less than max coordinates"),
                ),
            );
        }
        if max_coords[i] > layout.axes[i].num_samples {
            proof {
                assert(ints_of(max_coords@)[i as int] > layout.dims_spec()[i as int]);
                assert(!valid_slice(*layout, ints_of(min_coords@), ints_of(max_coords@))) by {
                    if valid_slice(*layout, ints_of(min_coords@), ints_of(max_coords@)) {
                        assert(ints_of(min_coords@)[i as int] >= 0);
                        assert(ints_of(max_coords@)[i as int] <= layout.dims_spec()[i as int]);
                    }
                }
            }
            return Err(VdsError::OutOfBounds(String::from_str("Coordinates out of volume bounds")));
        }
        i = i + 1;
    }
    proof {
        assert forall|t: int| 0 <= t < ints_of(min_coords@).len() implies 0 <= #[trigger] ints_of(
            min_coords@,
        )[t] && ints_of(min_coords@)[t] < ints_of(max_coords@)[t] && ints_of(max_coords@)[t]
            <= layout.dims_spec()[t] by {
            assert(min_coords@[t] < max_coords@[t]);
            assert(max_coords@[t] <= layout.axes@[t].num_samples);
        }
    }
    Ok(())
}

/// The brick extents of the layout's used dimensions, as a vector.
fn brick_dims_vec(layout: &VolumeDataLayout) -> (r: Vec<usize>)
    requires
        layout.dimensionality <= 6,
    ensures
        ints_of(r@) =~= layout.brick_dims_spec(),
{
    let mut r: Vec<usize> = Vec::new();
    let mut i: usize = 0;
    while i < layout.dimensionality
        invariant
            0 <= i <= layout.dimensionality,
            layout.dimensionality <= 6,
            r@.len() == i,
            forall|t: int| 0 <= t < i ==> r@[t] == layout.brick_size.dims@[t],
        decreases layout.dimensionality - i,
    {
        r.push(layout.brick_size.get(i));
        i = i + 1;
    }
    r
}

/// The linear indices of the bricks that overlap the slice `[min, max)`, in
/// the row-major order of the slice's brick window (last dimension
/// innermost), so that consumers see a deterministic enumeration.
pub fn get_overlapping_bricks(
    layout: &VolumeDataLayout,
    min_coords: &Vec<usize>,
    max_coords: &Vec<usize>,
) -> (r: Vec<usize>)
    requires
        layout.wf(),
        valid_slice(*layout, ints_of(min_coords@), ints_of(max_coords@)),
    ensures
        ({
            let min = ints_of(min_coords@);
            let max = ints_of(max_coords@);
            &&& r@.len() == seq_product(window_spec(*layout, min, max))
            &&& forall|k: int|
                0 <= k < r@.len() ==> #[trigger] r@[k] as int == linearize(
                    vec_add(
                        min_brick_spec(*layout, min),
                        delinearize(k, window_spec(*layout, min, max)),
                    ),
                    layout.counts_spec(),
                )
            &&& forall|k: int|
                0 <= k < r@.len() ==> #[trigger] r@[k] < seq_product(layout.counts_spec())
        }),
{
    let ghost min = ints_of(min_coords@);
    let ghost max = ints_of(max_coords@);
    let d = layout.dimensionality;
    let bd = brick_dims_vec(layout);
    proof {
        lemma_window_facts(*layout, min, max);
        lemma_wf_counts_positive(*layout);
    }
    // lowest brick touched, per dimension
    let mut min_brick: Vec<usize> = Vec::new();
    let mut i: usize = 0;
    while i < d
        invariant
            0 <= i <= d,
            d == layout.dimensionality,
            min_coords@.len() == d,
            bd@.len() == d,
            ints_of(bd@) =~= layout.brick_dims_spec(),
            min == ints_of(min_coords@),
            layout.wf(),
            valid_slice(*layout, min, max),
            min_brick@.len() == i,
            forall|t: int|
                0 <= t < i ==> #[trigger] min_brick@[t] as int == min_brick_spec(*layout, min)[t],
        decreases d - i,
    {
        proof {
            assert(layout.brick_dims_spec()[i as int] >= 1);
        }
        min_brick.push(min_coords[i] / bd[i]);
        i = i + 1;
    }
    // window extent in bricks, per dimension
    let mut window: Vec<usize> = Vec::new();
    let mut i2: usize = 0;
    while i2 < d
        invariant
            0 <= i2 <= d,
            d == layout.dimensionality,
            min_coords@.len() == d,
            max_coords@.len() == d,
            min_brick@.len() == d,
            bd@.len() == d,
            ints_of(bd@) =~= layout.brick_dims_spec(),
            min == ints_of(min_coords@),
            max == ints_of(max_coords@),
            layout.wf(),
            valid_slice(*layout, min, max),
            forall|t: int|
                0 <= t < d ==> #[trigger] min_brick@[t] as int == min_brick_spec(*layout, min)[t],
            window@.len() == i2,
            forall|t: int|
                0 <= t < i2 ==> #[trigger] window@[t] as int == window_spec(*layout, min, max)[t],
        decreases d - i2,
    {
        proof {
            lemma_window_facts(*layout, min, max);
            assert(min_brick@[i2 as int] as int == min_brick_spec(*layout, min)[i2 as int]);
            assert(max[i2 as int] == max_coords@[i2 as int] as int);
            assert(min_brick_spec(*layout, min)[i2 as int] <= max_brick_spec(*layout, max)[
                i2 as int]);
        }
        let mb = (max_coords[i2] - 1) / bd[i2];
        window.push(mb - min_brick[i2] + 1);
        i2 = i2 + 1;
    }
    proof {
        assert(ints_of(window@) =~= window_spec(*layout, min, max));
        assert(ints_of(min_brick@) =~= min_brick_spec(*layout, min));
        assert(seq_product(window_spec(*layout, min, max)) <= usize::MAX);
    }
    let wcount = product_of(&window);
    let counts = layout.brick_count();
    let mut out: Vec<usize> = Vec::new();
    let mut k: usize = 0;
    while k < wcount
        invariant
            0 <= k <= wcount,
            d == layout.dimensionality,
            min_brick@.len() == d,
            window@.len() == d,
            counts@.len() == d,
            ints_of(counts@) =~= layout.counts_spec(),
            ints_of(window@) =~= window_spec(*layout, min, max),
            ints_of(min_brick@) =~= min_brick_spec(*layout, min),
            min == ints_of(min_coords@),
            max == ints_of(max_coords@),
            layout.wf(),
            valid_slice(*layout, min, max),
            wcount == seq_product(window_spec(*layout, min, max)),
            out@.len() == k,
            forall|t: int|
                0 <= t < k ==> #[trigger] out@[t] as int == linearize(
                    vec_add(
                        min_brick_spec(*layout, min),
                        delinearize(t, window_spec(*layout, min, max)),
                    ),
                    layout.counts_spec(),
                ) && out@[t] < seq_product(layout.counts_spec()),
        decreases wcount - k,
    {
        proof {
            lemma_window_facts(*layout, min, max);
            lemma_wf_counts_positive(*layout);
            lemma_linearize_delinearize(k as int, window_spec(*layout, min, max));
        }
        let rel = delin_index(k, &window);
        let ghost grel = delinearize(k as int, window_spec(*layout, min, max));
        let mut abs: Vec<usize> = Vec::new();
        let mut j: usize = 0;
        while j < d
            invariant
                0 <= j <= d,
                d == layout.dimensionality,
                rel@.len() == d,
                min_brick@.len() == d,
                grel == delinearize(k as int, window_spec(*layout, min, max)),
                ints_of(rel@) == grel,
                in_box(grel, window_spec(*layout, min, max)),
                ints_of(min_brick@) =~= min_brick_spec(*layout, min),
                min == ints_of(min_coords@),
                max == ints_of(max_coords@),
                layout.wf(),
                valid_slice(*layout, min, max),
                abs@.len() == j,
                forall|t: int|
                    0 <= t < j ==> #[trigger] abs@[t] as int == min_brick_spec(*layout, min)[t]
                        + grel[t],
            decreases d - j,
        {
            proof {
                lemma_window_facts(*layout, min, max);
                assert(grel[j as int] == ints_of(rel@)[j as int]);
                assert(grel[j as int] < window_spec(*layout, min, max)[j as int]);
                assert(min_brick_spec(*layout, min)[j as int] + grel[j as int]
                    <= max_brick_spec(*layout, max)[j as int]);
                assert(max_brick_spec(*layout, max)[j as int] < layout.counts_spec()[j as int]);
                assert(layout.counts_spec()[j as int] <= seq_product(layout.counts_spec())) by {
                    lemma_counts_component_le(*layout, j as int);
                }
            }
            abs.push(min_brick[j] + rel[j]);
            j = j + 1;
        }
        proof {
            assert(ints_of(abs@) =~= vec_add(min_brick_spec(*layout, min), grel));
            assert(in_box(ints_of(abs@), layout.counts_spec())) by {
                assert forall|t: int| 0 <= t < d implies 0 <= #[trigger] ints_of(abs@)[t]
                    < layout.counts_spec()[t] by {
                    assert(grel[t] < window_spec(*layout, min, max)[t]);
                    assert(min_brick_spec(*layout, min)[t] + grel[t] <= max_brick_spec(
                        *layout,
                        max,
                    )[t]);
                }
            }
            lemma_linearize_bounds(ints_of(abs@), layout.counts_spec());
        }
        let idx = lin_index(&abs, &counts);
        out.push(idx);
        k = k + 1;
    }
    out
}

/// Each per-dimension brick count is at most the total brick count.
proof fn lemma_counts_component_le(layout: VolumeDataLayout, i: int)
    requires
        layout.wf(),
        0 <= i < layout.dimensionality,
    ensures
        layout.counts_spec()[i] <= seq_product(layout.counts_spec()),
{
    lemma_wf_counts_positive(layout);
    lemma_seq_component_le_product(layout.counts_spec(), i);
}

/// In a box of positive extents, each extent is at most the product of all.
proof fn lemma_seq_component_le_product(dims: Seq<int>, i: int)
    requires
        all_positive(dims),
        0 <= i < dims.len(),
    ensures
        dims[i] <= seq_product(dims),
    decreases dims.len(),
{
    if i == dims.len() - 1 {
        assert(all_positive(dims.drop_last()));
        lemma_product_positive(dims.drop_last());
        assert(seq_product(dims) == seq_product(dims.drop_last()) * dims.last());
        assert(seq_product(dims.drop_last()) * dims.last() >= dims.last()) by (nonlinear_arith)
            requires
                seq_product(dims.drop_last()) >= 1,
                dims.last() >= 1,
        ;
    } else {
        assert(all_positive(dims.drop_last()));
        assert(dims.drop_last()[i] == dims[i]);
        lemma_seq_component_le_product(dims.drop_last(), i);
        lemma_product_positive(dims.drop_last());
        assert(seq_product(dims.drop_last()) * dims.last() >= seq_product(dims.drop_last()))
            by (nonlinear_arith)
            requires
                seq_product(dims.drop_last()) >= 1,
                dims.last() >= 1,
        ;
    }
}

/// Componentwise sum of coordinate vectors.
fn vec_add_exec(a: &Vec<usize>, b: &Vec<usize>) -> (r: Vec<usize>)
    requires
        a@.len() == b@.len(),
        forall|i: int|
            0 <= i < a@.len() ==> #[trigger] ints_of(a@)[i] + ints_of(b@)[i] <= usize::MAX,
    ensures
        ints_of(r@) =~= vec_add(ints_of(a@), ints_of(b@)),
{
    let mut r: Vec<usize> = Vec::new();
    let mut i: usize = 0;
    while i < a.len()
        invariant
            0 <= i <= a@.len(),
            a@.len() == b@.len(),
            forall|t: int|
                0 <= t < a@.len() ==> #[trigger] ints_of(a@)[t] + ints_of(b@)[t] <= usize::MAX,
            r@.len() == i,
            forall|t: int| 0 <= t < i ==> #[trigger] r@[t] == a@[t] + b@[t],
        decreases a@.len() - i,
    {
        proof {
            assert(ints_of(a@)[i as int] + ints_of(b@)[i as int] <= usize::MAX);
        }
        r.push(a[i] + b[i]);
        i = i + 1;
    }
    r
}

/// Componentwise difference of coordinate vectors.
fn vec_sub_exec(a: &Vec<usize>, b: &Vec<usize>) -> (r: Vec<usize>)
    requires
        a@.len() == b@.len(),
        forall|i: int| 0 <= i < a@.len() ==> #[trigger] ints_of(b@)[i] <= ints_of(a@)[i],
    ensures
        ints_of(r@) =~= vec_sub(ints_of(a@), ints_of(b@)),
{
    let mut r: Vec<usize> = Vec::new();
    let mut i: usize = 0;
    while i < a.len()
        invariant
            0 <= i <= a@.len(),
            a@.len() == b@.len(),
            forall|t: int| 0 <= t < a@.len() ==> #[trigger] ints_of(b@)[t] <= ints_of(a@)[t],
            r@.len() == i,
            forall|t: int| 0 <= t < i ==> #[trigger] r@[t] == a@[t] - b@[t],
        decreases a@.len() - i,
    {
        proof {
            assert(ints_of(b@)[i as int] <= ints_of(a@)[i as int]);
        }
        r.push(a[i] - b[i]);
        i = i + 1;
    }
    r
}

/// Componentwise quotient of coordinate vectors.
fn vec_div_exec(a: &Vec<usize>, b: &Vec<usize>) -> (r: Vec<usize>)
    requires
        a@.len() == b@.len(),
        forall|i: int| 0 <= i < a@.len() ==> #[trigger] ints_of(b@)[i] >= 1,
    ensures
        ints_of(r@) =~= vec_div(ints_of(a@), ints_of(b@)),
{
    let mut r: Vec<usize> = Vec::new();
    let mut i: usize = 0;
    while i < a.len()
        invariant
            0 <= i <= a@.len(),
            a@.len() == b@.len(),
            forall|t: int| 0 <= t < a@.len() ==> #[trigger] ints_of(b@)[t] >= 1,
            r@.len() == i,
            forall|t: int| 0 <= t < i ==> #[trigger] r@[t] as int == a@[t] as int / b@[t] as int,
        decreases a@.len() - i,
    {
        proof {
            assert(ints_of(b@)[i as int] >= 1);
        }
        r.push(a[i] / b[i]);
        i = i + 1;
    }
    r
}

/// Componentwise product of coordinate vectors.
fn vec_mul_exec(a: &Vec<usize>, b: &Vec<usize>) -> (r: Vec<usize>)
    requires
        a@.len() == b@.len(),
        forall|i: int|
            0 <= i < a@.len() ==> #[trigger] (ints_of(a@)[i] * ints_of(b@)[i]) <= usize::MAX,
    ensures
        ints_of(r@) =~= vec_mul(ints_of(a@), ints_of(b@)),
{
    let mut r: Vec<usize> = Vec::new();
    let mut i: usize = 0;
    while i < a.len()
        invariant
            0 <= i <= a@.len(),
            a@.len() == b@.len(),
            forall|t: int|
                0 <= t < a@.len() ==> #[trigger] (ints_of(a@)[t] * ints_of(b@)[t]) <= usize::MAX,
            r@.len() == i,
            forall|t: int| 0 <= t < i ==> #[trigger] r@[t] as int == a@[t] as int * b@[t] as int,
        decreases a@.len() - i,
    {
        proof {
            assert(ints_of(a@)[i as int] * ints_of(b@)[i as int] <= usize::MAX);
            assert(ints_of(a@)[i as int] * ints_of(b@)[i as int] >= 0) by (nonlinear_arith)
                requires
                    ints_of(a@)[i as int] >= 0,
                    ints_of(b@)[i as int] >= 0,
            ;
        }
        r.push(a[i] * b[i]);
        i = i + 1;
    }
    r
}

/// The extent of the slice in voxels per dimension, as a vector.
fn slice_extent_vec(min_coords: &Vec<usize>, max_coords: &Vec<usize>) -> (r: Vec<usize>)
    requires
        min_coords@.len() == max_coords@.len(),
        forall|i: int|
            0 <= i < min_coords@.len() ==> #[trigger] ints_of(min_coords@)[i] <= ints_of(
                max_coords@,
            )[i],
    ensures
        ints_of(r@) =~= slice_extent(ints_of(min_coords@), ints_of(max_coords@)),
{
    let r = vec_sub_exec(max_coords, min_coords);
    proof {
        assert(ints_of(r@) =~= slice_extent(ints_of(min_coords@), ints_of(max_coords@)));
    }
    r
}

/// The views of the fetched brick buffers, in window order.
pub open spec fn bricks_view(bricks: Seq<Option<Vec<u8>>>) -> Seq<Option<Seq<u8>>> {
    Seq::new(
        bricks.len(),
        |k: int|
            match bricks[k] {
                Some(b) => Some(b@),
                Option::None => Option::None,
            },
    )
}

/// The fetched brick buffers are positioned over the slice's brick window
/// and each present buffer holds one full padded brick.
pub open spec fn bricks_wf(
    layout: VolumeDataLayout,
    min: Seq<int>,
    max: Seq<int>,
    bricks: Seq<Option<Vec<u8>>>,
) -> bool {
    &&& bricks.len() == seq_product(window_spec(layout, min, max))
    &&& forall|k: int|
        0 <= k < bricks.len() ==> ((#[trigger] bricks[k]) is Some ==> bricks[k]->0@.len()
            == layout.brick_bytes_spec())
}

/// Assemble the slice `[min, max)` from the given brick buffers.
///
/// `bricks` holds one entry per brick of the slice's brick window in the
/// window's row-major order — the order in which [`get_overlapping_bricks`]
/// enumerates them — with `None` for bricks that were never written, whose
/// voxels read as zero. The result is the slice's bytes in row-major order,
/// last requested dimension fastest.
pub fn assemble_slice(
    layout: &VolumeDataLayout,
    min_coords: &Vec<usize>,
    max_coords: &Vec<usize>,
    bricks: &Vec<Option<Vec<u8>>>,
) -> (r: Vec<u8>)
    requires
        layout.wf(),
        valid_slice(*layout, ints_of(min_coords@), ints_of(max_coords@)),
        bricks_wf(*layout, ints_of(min_coords@), ints_of(max_coords@), bricks@),
    ensures
        r@ == slice_spec(
            *layout,
            ints_of(min_coords@),
            ints_of(max_coords@),
            bricks_view(bricks@),
        ),
{
    let ghost min = ints_of(min_coords@);
    let ghost max = ints_of(max_coords@);
    let ghost gext = slice_extent(min, max);
    let ghost gw = window_spec(*layout, min, max);
    let ghost gbricks = bricks_view(bricks@);
    let ghost goal = slice_spec(*layout, min, max, gbricks);
    let d = layout.dimensionality;
    proof {
        lemma_window_facts(*layout, min, max);
        lemma_wf_counts_positive(*layout);
    }
    let bd = brick_dims_vec(layout);
    let ext = slice_extent_vec(min_coords, max_coords);
    let window_v = window_vec(layout, min_coords, max_coords);
    let mnb = vec_div_exec(min_coords, &bd);
    proof {
        assert(ints_of(mnb@) =~= min_brick_spec(*layout, min));
        lemma_product_positive(gext);
        assert(seq_product(gext) <= seq_product(gext) * layout.elem_bytes_spec())
            by (nonlinear_arith)
            requires
                seq_product(gext) >= 1,
                layout.elem_bytes_spec() >= 1,
        ;
    }
    let vox_count = product_of(&ext);
    let e = layout.data_type.size_in_bytes();
    let mut out: Vec<u8> = Vec::new();
    let mut v: usize = 0;
    while v < vox_count
        invariant
            0 <= v <= vox_count,
            d == layout.dimensionality,
            min == ints_of(min_coords@),
            max == ints_of(max_coords@),
            gext == slice_extent(min, max),
            gw == window_spec(*layout, min, max),
            gbricks == bricks_view(bricks@),
            goal == slice_spec(*layout, min, max, gbricks),
            layout.wf(),
            valid_slice(*layout, min, max),
            bricks_wf(*layout, min, max, bricks@),
            ints_of(bd@) =~= layout.brick_dims_spec(),
            ints_of(ext@) =~= gext,
            ints_of(window_v@) =~= gw,
            ints_of(mnb@) =~= min_brick_spec(*layout, min),
            bd@.len() == d,
            ext@.len() == d,
            window_v@.len() == d,
            mnb@.len() == d,
            min_coords@.len() == d,
            max_coords@.len() == d,
            vox_count == seq_product(gext),
            e == layout.elem_bytes_spec(),
            out@.len() == v * e,
            forall|p: int| 0 <= p < out@.len() ==> #[trigger] out@[p] == goal[p],
        decreases vox_count - v,
    {
        proof {
            lemma_window_facts(*layout, min, max);
            lemma_linearize_delinearize(v as int, gext);
            assert(seq_product(gext) * e <= usize::MAX);
            assert(v * e <= (seq_product(gext) - 1) * e) by (nonlinear_arith)
                requires
                    0 <= v < seq_product(gext),
                    e >= 1,
            ;
            assert((seq_product(gext) - 1) * e + e == seq_product(gext) * e) by (nonlinear_arith);
        }
        let rel = delin_index(v, &ext);
        let ghost grel = delinearize(v as int, gext);
        proof {
            assert(in_box(grel, gext));
            assert forall|t: int| 0 <= t < d implies #[trigger] ints_of(min_coords@)[t] + ints_of(
                rel@,
            )[t] <= usize::MAX by {
                assert(grel[t] < gext[t]);
                assert(min[t] + grel[t] < max[t]);
                assert(max[t] <= layout.dims_spec()[t]);
                assert(layout.axes@[t].num_samples <= usize::MAX);
            }
        }
        let c = vec_add_exec(min_coords, &rel);
        let ghost gc = vec_add(min, grel);
        proof {
            assert(ints_of(c@) =~= gc);
            assert forall|t: int| 0 <= t < d implies min[t] <= #[trigger] gc[t] < max[t] by {
                assert(grel[t] >= 0);
                assert(grel[t] < gext[t]);
            }
            assert(c@.len() == d);
            assert forall|t: int| 0 <= t < d implies #[trigger] ints_of(bd@)[t] >= 1 by {
                assert(layout.brick_dims_spec()[t] >= 1);
            }
        }
        let bc = vec_div_exec(&c, &bd);
        let ghost gbc = vec_div(gc, layout.brick_dims_spec());
        proof {
            assert(ints_of(bc@) =~= gbc);
            assert forall|t: int| 0 <= t < d implies min_brick_spec(*layout, min)[t] <= #[trigger]
            gbc[t] <= max_brick_spec(*layout, max)[t] by {
                let b = layout.brick_dims_spec()[t];
                lemma_div_is_ordered(min[t], gc[t], b);
                lemma_div_is_ordered(gc[t], max[t] - 1, b);
            }
            assert forall|t: int| 0 <= t < d implies #[trigger] ints_of(mnb@)[t] <= ints_of(
                bc@,
            )[t] by {
                assert(gbc[t] >= min_brick_spec(*layout, min)[t]);
            }
        }
        let relb = vec_sub_exec(&bc, &mnb);
        proof {
            assert(ints_of(relb@) =~= vec_sub(gbc, min_brick_spec(*layout, min)));
            assert(in_box(ints_of(relb@), gw)) by {
                assert forall|t: int| 0 <= t < d implies 0 <= #[trigger] ints_of(relb@)[t]
                    < gw[t] by {
                    assert(min_brick_spec(*layout, min)[t] <= gbc[t] <= max_brick_spec(
                        *layout,
                        max,
                    )[t]);
                }
            }
            assert(seq_product(gw) <= usize::MAX);
        }
        let pos = lin_index(&relb, &window_v);
        let ghost gpos = brick_pos_of(*layout, min, max, gc);
        proof {
            lemma_linearize_bounds(ints_of(relb@), gw);
            assert(vec_sub(vec_div(gc, layout.brick_dims_spec()), min_brick_spec(*layout, min))
                =~= ints_of(relb@));
            assert(pos as int == gpos);
            assert((pos as int) < seq_product(gw));
            assert forall|t: int| 0 <= t < d implies #[trigger] (ints_of(bc@)[t] * ints_of(
                bd@,
            )[t]) <= usize::MAX by {
                let b = layout.brick_dims_spec()[t];
                lemma_fundamental_div_mod(gc[t], b);
                vstd::arithmetic::div_mod::lemma_mod_bound(gc[t], b);
                assert(gbc[t] == gc[t] / b);
                assert(b * (gc[t] / b) == (gc[t] / b) * b) by (nonlinear_arith);
                assert(gbc[t] * b <= gc[t]);
                assert(gc[t] <= usize::MAX);
            }
        }
        let bcbd = vec_mul_exec(&bc, &bd);
        proof {
            assert(ints_of(bcbd@) =~= vec_mul(gbc, layout.brick_dims_spec()));
            assert forall|t: int| 0 <= t < d implies #[trigger] ints_of(bcbd@)[t] <= ints_of(
                c@,
            )[t] by {
                let b = layout.brick_dims_spec()[t];
                lemma_fundamental_div_mod(gc[t], b);
                vstd::arithmetic::div_mod::lemma_mod_bound(gc[t], b);
                assert(gbc[t] == gc[t] / b);
                assert(b * (gc[t] / b) == (gc[t] / b) * b) by (nonlinear_arith);
            }
        }
        let local = vec_sub_exec(&c, &bcbd);
        let ghost glocal = vec_sub(gc, vec_mul(gbc, layout.brick_dims_spec()));
        proof {
            assert(ints_of(local@) =~= glocal);
            assert(in_box(glocal, layout.brick_dims_spec())) by {
                assert forall|t: int| 0 <= t < d implies 0 <= #[trigger] glocal[t]
                    < layout.brick_dims_spec()[t] by {
                    let b = layout.brick_dims_spec()[t];
                    lemma_fundamental_div_mod(gc[t], b);
                    vstd::arithmetic::div_mod::lemma_mod_bound(gc[t], b);
                    assert(gbc[t] == gc[t] / b);
                    assert(b * (gc[t] / b) == (gc[t] / b) * b) by (nonlinear_arith);
                    assert(glocal[t] == gc[t] - gbc[t] * b);
                }
            }
            lemma_linearize_bounds(glocal, layout.brick_dims_spec());
            lemma_brick_dims_product(*layout);
            assert(seq_product(layout.brick_dims_spec()) * e <= usize::MAX);
            assert(linearize(glocal, layout.brick_dims_spec()) * e <= (seq_product(
                layout.brick_dims_spec(),
            ) - 1) * e) by (nonlinear_arith)
                requires
                    0 <= linearize(glocal, layout.brick_dims_spec()) < seq_product(
                        layout.brick_dims_spec(),
                    ),
                    e >= 1,
            ;
            assert((seq_product(layout.brick_dims_spec()) - 1) * e + e == seq_product(
                layout.brick_dims_spec(),
            ) * e) by (nonlinear_arith);
        }
        let lloc = lin_index(&local, &bd);
        let loff = lloc * e;
        let ghost base = v * e;
        let ghost out_pre = out@;
        match &bricks[pos] {
            Some(buf) => {
                let blen = buf.len();
                let mut j: usize = 0;
                while j < e
                    invariant
                        0 <= j <= e,
                        out@ =~= out_pre + buf@.subrange(loff as int, loff + j),
                        blen == buf@.len(),
                        loff + e <= blen,
                    decreases e - j,
                {
                    proof {
                        assert(buf@.subrange(loff as int, loff + j + 1) =~= buf@.subrange(
                            loff as int,
                            loff + j,
                        ).push(buf@[loff + j]));
                    }
                    out.push(buf[loff + j]);
                    j = j + 1;
                }
            },
            Option::None => {
                let mut j: usize = 0;
                while j < e
                    invariant
                        0 <= j <= e,
                        out@ =~= out_pre + Seq::new(j as nat, |t: int| 0u8),
                    decreases e - j,
                {
                    proof {
                        assert(Seq::new((j + 1) as nat, |t: int| 0u8) =~= Seq::new(
                            j as nat,
                            |t: int| 0u8,
                        ).push(0u8));
                    }
                    out.push(0);
                    j = j + 1;
                }
            },
        }
        proof {
            assert forall|p: int| base <= p < base + e implies out@[p] == #[trigger] goal[p] by {
                let k = p - base;
                lemma_fundamental_div_mod_converse(p, e as int, v as int, k);
                assert(p / (e as int) == v as int);
                assert(p % (e as int) == k);
                assert(goal.len() == slice_bytes_spec(*layout, min, max));
                assert(0 <= p < goal.len());
                assert(delinearize(p / (e as int), gext) == grel);
                assert(vec_add(min, grel) =~= gc);
                assert(brick_pos_of(*layout, min, max, gc) == pos as int);
                assert(gbricks[pos as int] == match bricks@[pos as int] {
                    Some(b) => Some(b@),
                    Option::None => Option::None,
                });
                match bricks@[pos as int] {
                    Some(gbuf) => {
                        assert(brick_byte_off(*layout, gc, k) == lloc * e + k) by {
                            assert(vec_sub(
                                gc,
                                vec_mul(
                                    vec_div(gc, layout.brick_dims_spec()),
                                    layout.brick_dims_spec(),
                                ),
                            ) =~= glocal);
                        }
                        assert(goal[p] == gbuf@[lloc * e + k]);
                        assert(out@[p] == gbuf@[loff + k]);
                    },
                    Option::None => {
                        assert(goal[p] == 0u8);
                        assert(out@[p] == 0u8);
                    },
                }
            }
            assert(out@.len() == base + e);
            assert forall|p: int| 0 <= p < out@.len() implies #[trigger] out@[p] == goal[p] by {
                if p < base {
                    assert(out@[p] == out_pre[p]);
                } else {
                    assert(out@[p] == goal[p]);
                }
            }
            assert((v + 1) * e == v * e + e) by (nonlinear_arith);
        }
        v = v + 1;
    }
    proof {
        assert(out@.len() == seq_product(gext) * e) by {
            assert(vox_count * e == seq_product(gext) * e);
        }
        assert(out@ =~= goal);
    }
    out
}

/// The window extents of the slice, as a vector.
fn window_vec(
    layout: &VolumeDataLayout,
    min_coords: &Vec<usize>,
    max_coords: &Vec<usize>,
) -> (r: Vec<usize>)
    requires
        layout.wf(),
        valid_slice(*layout, ints_of(min_coords@), ints_of(max_coords@)),
    ensures
        ints_of(r@) =~= window_spec(*layout, ints_of(min_coords@), ints_of(max_coords@)),
        r@.len() == layout.dimensionality,
{
    let ghost min = ints_of(min_coords@);
    let ghost max = ints_of(max_coords@);
    let d = layout.dimensionality;
    let bd = brick_dims_vec(layout);
    let mut r: Vec<usize> = Vec::new();
    let mut i: usize = 0;
    proof {
        lemma_window_facts(*layout, min, max);
    }
    while i < d
        invariant
            0 <= i <= d,
            d == layout.dimensionality,
            min_coords@.len() == d,
            max_coords@.len() == d,
            bd@.len() == d,
            ints_of(bd@) =~= layout.brick_dims_spec(),
            min == ints_of(min_coords@),
            max == ints_of(max_coords@),
            layout.wf(),
            valid_slice(*layout, min, max),
            r@.len() == i,
            forall|t: int|
                0 <= t < i ==> #[trigger] r@[t] as int == window_spec(*layout, min, max)[t],
        decreases d - i,
    {
        proof {
            lemma_window_facts(*layout, min, max);
            assert(0 <= min_brick_spec(*layout, min)[i as int] <= max_brick_spec(*layout, max)[
                i as int] < layout.counts_spec()[i as int]);
        }
        let mb = (max_coords[i] - 1) / bd[i];
        let nb = min_coords[i] / bd[i];
        r.push(mb - nb + 1);
        i = i + 1;
    }
    r
}

/// The product over a layout's brick extents equals the product over its
/// used dimensions: the padding dimensions all have extent one.
pub proof fn lemma_brick_dims_product(layout: VolumeDataLayout)
    requires
        layout.wf(),
    ensures
        seq_product(ints_of(layout.brick_size.dims@)) == seq_product(layout.brick_dims_spec()),
        layout.brick_bytes_spec() == seq_product(layout.brick_dims_spec())
            * layout.elem_bytes_spec(),
{
    let s = ints_of(layout.brick_size.dims@);
    let d = layout.dimensionality as int;
    crate::indexing::lemma_product_trailing_ones(s, d);
    assert(s.subrange(0, d) =~= layout.brick_dims_spec());
}

/// A zero-filled brick buffer: what an absent brick reads as.
pub open spec fn zero_brick_spec(layout: VolumeDataLayout) -> Seq<u8> {
    Seq::new(layout.brick_bytes_spec() as nat, |i: int| 0u8)
}

/// Allocate a zero-filled brick buffer, standing for a brick that was never
/// written.
pub fn zero_brick(layout: &VolumeDataLayout) -> (r: Vec<u8>)
    requires
        layout.wf(),
    ensures
        r@ =~= zero_brick_spec(*layout),
{
    let n = layout.brick_size_bytes();
    let mut r: Vec<u8> = Vec::new();
    let mut i: usize = 0;
    while i < n
        invariant
            0 <= i <= n,
            r@.len() == i,
            forall|t: int| 0 <= t < i ==> r@[t] == 0u8,
        decreases n - i,
    {
        r.push(0);
        i = i + 1;
    }
    r
}

/// Whether the voxel `c` lies inside `[min, max)`, checked per dimension.
fn coords_in_range(min_coords: &Vec<usize>, max_coords: &Vec<usize>, c: &Vec<usize>) -> (r: bool)
    requires
        min_coords@.len() == c@.len(),
        max_coords@.len() == c@.len(),
    ensures
        r == voxel_in_slice(ints_of(min_coords@), ints_of(max_coords@), ints_of(c@)),
{
    let mut i: usize = 0;
    while i < c.len()
        invariant
            0 <= i <= c@.len(),
            min_coords@.len() == c@.len(),
            max_coords@.len() == c@.len(),
            forall|t: int|
                0 <= t < i ==> min_coords@[t] <= #[trigger] c@[t] < max_coords@[t],
        decreases c@.len() - i,
    {
        if c[i] < min_coords[i] || c[i] >= max_coords[i] {
            proof {
                let gm = ints_of(min_coords@);
                let gx = ints_of(max_coords@);
                let gc = ints_of(c@);
                assert(!voxel_in_slice(gm, gx, gc)) by {
                    if voxel_in_slice(gm, gx, gc) {
                        assert(gm[i as int] <= gc[i as int] < gx[i as int]);
                    }
                }
            }
            return false;
        }
        i = i + 1;
    }
    proof {
        let gm = ints_of(min_coords@);
        let gx = ints_of(max_coords@);
        let gc = ints_of(c@);
        assert forall|t: int| 0 <= t < gc.len() implies gm[t] <= #[trigger] gc[t] < gx[t] by {
            assert(min_coords@[t] <= c@[t] < max_coords@[t]);
        }
    }
    true
}

/// Overlay the slice content `data` for the region `[min, max)` onto the
/// buffer of the brick at `brick_coords`: the bytes of the brick's voxels
/// that lie inside the region are replaced by the matching bytes of `data`;
/// all other bytes of the brick, padding included, are left as they were.
///
/// This is the per-brick step of the read-modify-write path that a slice
/// write performs.
pub fn overlay_slice_into_brick(
    layout: &VolumeDataLayout,
    brick_coords: &Vec<usize>,
    brick: &mut Vec<u8>,
    min_coords: &Vec<usize>,
    max_coords: &Vec<usize>,
    data: &Vec<u8>,
)
    requires
        layout.wf(),
        valid_slice(*layout, ints_of(min_coords@), ints_of(max_coords@)),
        in_box(ints_of(brick_coords@), layout.counts_spec()),
        old(brick)@.len() == layout.brick_bytes_spec(),
        data@.len() == slice_bytes_spec(
            *layout,
            ints_of(min_coords@),
            ints_of(max_coords@),
        ),
    ensures
        final(brick)@ == overlay_spec(
            *layout,
            ints_of(brick_coords@),
            old(brick)@,
            ints_of(min_coords@),
            ints_of(max_coords@),
            data@,
        ),
{
    let ghost min = ints_of(min_coords@);
    let ghost max = ints_of(max_coords@);
    let ghost gext = slice_extent(min, max);
    let ghost gbc = ints_of(brick_coords@);
    let ghost old_b = old(brick)@;
    let ghost goal = overlay_spec(*layout, gbc, old_b, min, max, data@);
    let d = layout.dimensionality;
    proof {
        lemma_window_facts(*layout, min, max);
        lemma_wf_counts_positive(*layout);
        lemma_brick_dims_product(*layout);
        lemma_product_positive(layout.brick_dims_spec());
        assert(seq_product(layout.brick_dims_spec()) <= seq_product(layout.brick_dims_spec())
            * layout.elem_bytes_spec()) by (nonlinear_arith)
            requires
                seq_product(layout.brick_dims_spec()) >= 1,
                layout.elem_bytes_spec() >= 1,
        ;
    }
    let bd = brick_dims_vec(layout);
    let ext = slice_extent_vec(min_coords, max_coords);
    proof {
        assert forall|t: int| 0 <= t < d implies #[trigger] (ints_of(brick_coords@)[t] * ints_of(
            bd@,
        )[t]) <= usize::MAX by {
            let b = layout.brick_dims_spec()[t];
            let cnt = layout.counts_spec()[t];
            assert(cnt * b <= usize::MAX);
            assert(gbc[t] < cnt);
            assert(gbc[t] * b <= cnt * b) by (nonlinear_arith)
                requires
                    0 <= gbc[t] <= cnt,
                    b >= 1,
            ;
        }
    }
    let base_coords = vec_mul_exec(brick_coords, &bd);
    let ghost gbase = vec_mul(gbc, layout.brick_dims_spec());
    let brick_voxels = product_of(&bd);
    let e = layout.data_type.size_in_bytes();
    let mut lv: usize = 0;
    while lv < brick_voxels
        invariant
            0 <= lv <= brick_voxels,
            d == layout.dimensionality,
            min == ints_of(min_coords@),
            max == ints_of(max_coords@),
            gext == slice_extent(min, max),
            gbc == ints_of(brick_coords@),
            goal == overlay_spec(*layout, gbc, old_b, min, max, data@),
            layout.wf(),
            valid_slice(*layout, min, max),
            in_box(gbc, layout.counts_spec()),
            ints_of(bd@) =~= layout.brick_dims_spec(),
            ints_of(ext@) =~= gext,
            ints_of(base_coords@) =~= gbase,
            gbase == vec_mul(gbc, layout.brick_dims_spec()),
            bd@.len() == d,
            ext@.len() == d,
            base_coords@.len() == d,
            min_coords@.len() == d,
            max_coords@.len() == d,
            brick_voxels == seq_product(layout.brick_dims_spec()),
            e == layout.elem_bytes_spec(),
            old_b.len() == layout.brick_bytes_spec(),
            data@.len() == slice_bytes_spec(*layout, min, max),
            brick@.len() == old_b.len(),
            forall|p: int| 0 <= p < lv * e ==> #[trigger] brick@[p] == goal[p],
            forall|p: int| lv * e <= p < brick@.len() ==> #[trigger] brick@[p] == old_b[p],
        decreases brick_voxels - lv,
    {
        proof {
            lemma_linearize_delinearize(lv as int, layout.brick_dims_spec());
            lemma_brick_dims_product(*layout);
            assert(old_b.len() == seq_product(layout.brick_dims_spec()) * e);
            assert(lv * e <= (seq_product(layout.brick_dims_spec()) - 1) * e) by (nonlinear_arith)
                requires
                    0 <= lv < seq_product(layout.brick_dims_spec()),
                    e >= 1,
            ;
            assert((seq_product(layout.brick_dims_spec()) - 1) * e + e == seq_product(
                layout.brick_dims_spec(),
            ) * e) by (nonlinear_arith);
        }
        let local = delin_index(lv, &bd);
        let ghost glocal = delinearize(lv as int, layout.brick_dims_spec());
        proof {
            assert(in_box(glocal, layout.brick_dims_spec()));
            assert forall|t: int| 0 <= t < d implies #[trigger] ints_of(base_coords@)[t] + ints_of(
                local@,
            )[t] <= usize::MAX by {
                let b = layout.brick_dims_spec()[t];
                let cnt = layout.counts_spec()[t];
                assert(cnt * b <= usize::MAX);
                assert(gbase[t] == gbc[t] * b);
                assert(glocal[t] < b);
                assert(gbc[t] * b + b <= cnt * b) by (nonlinear_arith)
                    requires
                        0 <= gbc[t] < cnt,
                        b >= 1,
                ;
            }
        }
        let c = vec_add_exec(&base_coords, &local);
        let ghost gc = vec_add(gbase, glocal);
        proof {
            assert(ints_of(c@) =~= gc);
        }
        let ghost base = lv * e;
        let ghost brick_pre = brick@;
        if coords_in_range(min_coords, max_coords, &c) {
            proof {
                assert(voxel_in_slice(min, max, gc));
                assert forall|t: int| 0 <= t < d implies #[trigger] ints_of(min_coords@)[t]
                    <= ints_of(c@)[t] by {
                    assert(min[t] <= gc[t]);
                }
            }
            let rel = vec_sub_exec(&c, min_coords);
            proof {
                assert(ints_of(rel@) =~= vec_sub(gc, min));
                assert(in_box(ints_of(rel@), gext)) by {
                    assert forall|t: int| 0 <= t < d implies 0 <= #[trigger] ints_of(rel@)[t]
                        < gext[t] by {
                        assert(min[t] <= gc[t] < max[t]);
                    }
                }
                lemma_window_facts(*layout, min, max);
                assert(seq_product(gext) * e <= usize::MAX);
                lemma_product_positive(gext);
                assert(seq_product(gext) <= seq_product(gext) * e) by (nonlinear_arith)
                    requires
                        seq_product(gext) >= 1,
                        e >= 1,
                ;
                lemma_linearize_bounds(ints_of(rel@), gext);
                assert(linearize(ints_of(rel@), gext) * e <= (seq_product(gext) - 1) * e)
                    by (nonlinear_arith)
                    requires
                        0 <= linearize(ints_of(rel@), gext) < seq_product(gext),
                        e >= 1,
                ;
                assert((seq_product(gext) - 1) * e + e == seq_product(gext) * e)
                    by (nonlinear_arith);
            }
            let soff = lin_index(&rel, &ext) * e;
            let blen = brick.len();
            let dlen = data.len();
            let mut j: usize = 0;
            while j < e
                invariant
                    0 <= j <= e,
                    brick@.len() == brick_pre.len(),
                    blen == brick@.len(),
                    dlen == data@.len(),
                    base == lv * e,
                    base + e <= blen,
                    soff + e <= dlen,
                    forall|p: int|
                        0 <= p < brick@.len() && !(base <= p < base + j) ==> #[trigger] brick@[p]
                            == brick_pre[p],
                    forall|t: int|
                        0 <= t < j ==> #[trigger] brick@[base + t] == data@[soff + t],
                decreases e - j,
            {
                let idx = lv * e + j;
                brick.set(idx, data[soff + j]);
                j = j + 1;
            }
            proof {
                assert forall|p: int| base <= p < base + e implies #[trigger] brick@[p]
                    == goal[p] by {
                    let k = p - base;
                    lemma_fundamental_div_mod_converse(p, e as int, lv as int, k);
                    assert(goal.len() == old_b.len());
                    assert(delinearize(p / (e as int), layout.brick_dims_spec()) == glocal);
                    assert(vec_add(vec_mul(gbc, layout.brick_dims_spec()), glocal) =~= gc);
                    assert(goal[p] == data@[linearize(vec_sub(gc, min), gext) * e + k]);
                    assert(vec_sub(gc, min) =~= ints_of(rel@));
                    assert(brick@[base + k] == data@[soff + k]);
                    assert(p == base + k);
                }
            }
        } else {
            proof {
                assert(!voxel_in_slice(min, max, gc));
                assert forall|p: int| base <= p < base + e implies #[trigger] brick@[p]
                    == goal[p] by {
                    let k = p - base;
                    lemma_fundamental_div_mod_converse(p, e as int, lv as int, k);
                    assert(goal.len() == old_b.len());
                    assert(delinearize(p / (e as int), layout.brick_dims_spec()) == glocal);
                    assert(vec_add(vec_mul(gbc, layout.brick_dims_spec()), glocal) =~= gc);
                    assert(goal[p] == old_b[p]);
                    assert(brick@[p] == old_b[p]);
                }
            }
        }
        proof {
            assert forall|p: int| 0 <= p < (lv + 1) * e implies #[trigger] brick@[p]
                == goal[p] by {
                assert((lv + 1) * e == lv * e + e) by (nonlinear_arith);
                if p < base {
                    assert(brick@[p] == brick_pre[p]);
                    assert(brick_pre[p] == goal[p]);
                }
            }
            assert forall|p: int| (lv + 1) * e <= p < brick@.len() implies #[trigger] brick@[p]
                == old_b[p] by {
                assert((lv + 1) * e == lv * e + e) by (nonlinear_arith);
                assert(brick@[p] == brick_pre[p]);
            }
        }
        lv = lv + 1;
    }
    proof {
        assert(brick_voxels * e == old_b.len());
        assert(brick@ =~= goal);
    }
}

/// What a brick held before a write: its fetched buffer, or a zero-filled
/// buffer if it was never written.
pub open spec fn old_brick_or_zeros(
    layout: VolumeDataLayout,
    old_bricks: Seq<Option<Seq<u8>>>,
    k: int,
) -> Seq<u8> {
    match old_bricks[k] {
        Some(b) => b,
        Option::None => zero_brick_spec(layout),
    }
}

/// Writing a slice and then reading the identical region returns exactly the
/// written bytes — including when the region spans several bricks and when
/// it is not aligned to brick boundaries.
///
/// The hypothesis describes the state after a slice write: every brick of
/// the region's brick window holds the overlay of the written data onto
/// whatever that brick held before, a zero-filled buffer standing for a
/// brick that never existed. The conclusion is that assembling the same
/// region from those bricks yields the written data, byte for byte.
pub proof fn lemma_write_then_read_round_trip(
    layout: VolumeDataLayout,
    min: Seq<int>,
    max: Seq<int>,
    data: Seq<u8>,
    old_bricks: Seq<Option<Seq<u8>>>,
    new_bricks: Seq<Option<Seq<u8>>>,
)
    requires
        layout.wf(),
        valid_slice(layout, min, max),
        data.len() == slice_bytes_spec(layout, min, max),
        old_bricks.len() == seq_product(window_spec(layout, min, max)),
        new_bricks.len() == old_bricks.len(),
        forall|k: int|
            0 <= k < old_bricks.len() ==> ((#[trigger] old_bricks[k]) is Some
                ==> old_bricks[k]->0.len() == layout.brick_bytes_spec()),
        forall|k: int|
            0 <= k < new_bricks.len() ==> #[trigger] new_bricks[k] == Some(
                overlay_spec(
                    layout,
                    vec_add(
                        min_brick_spec(layout, min),
                        delinearize(k, window_spec(layout, min, max)),
                    ),
                    old_brick_or_zeros(layout, old_bricks, k),
                    min,
                    max,
                    data,
                ),
            ),
    ensures
        slice_spec(layout, min, max, new_bricks) == data,
{
    let e = layout.elem_bytes_spec();
    let gext = slice_extent(min, max);
    let gw = window_spec(layout, min, max);
    let bd = layout.brick_dims_spec();
    let mnb = min_brick_spec(layout, min);
    let d = layout.dimensionality as int;
    let result = slice_spec(layout, min, max, new_bricks);
    lemma_window_facts(layout, min, max);
    lemma_wf_counts_positive(layout);
    lemma_brick_dims_product(layout);
    assert(result.len() == data.len());
    assert forall|p: int| 0 <= p < data.len() implies result[p] == data[p] by {
        let v = p / e;
        let k2 = p % e;
        vstd::arithmetic::div_mod::lemma_mod_bound(p, e);
        lemma_fundamental_div_mod(p, e);
        lemma_div_pos_is_pos(p, e);
        // v < seq_product(gext)
        assert((seq_product(gext) - 1) * e + (e - 1) == seq_product(gext) * e - 1)
            by (nonlinear_arith);
        lemma_fundamental_div_mod_converse(
            seq_product(gext) * e - 1,
            e,
            seq_product(gext) - 1,
            e - 1,
        );
        lemma_div_is_ordered(p, seq_product(gext) * e - 1, e);
        assert(0 <= v < seq_product(gext));
        lemma_linearize_delinearize(v, gext);
        let rel = delinearize(v, gext);
        let c = vec_add(min, rel);
        assert forall|t: int| 0 <= t < d implies min[t] <= #[trigger] c[t] < max[t] by {
            assert(0 <= rel[t] < gext[t]);
        }
        let gbc = vec_div(c, bd);
        assert forall|t: int| 0 <= t < d implies mnb[t] <= #[trigger] gbc[t] <= max_brick_spec(
            layout,
            max,
        )[t] by {
            let b = bd[t];
            lemma_div_is_ordered(min[t], c[t], b);
            lemma_div_is_ordered(c[t], max[t] - 1, b);
        }
        let relb = vec_sub(gbc, mnb);
        assert(in_box(relb, gw)) by {
            assert forall|t: int| 0 <= t < d implies 0 <= #[trigger] relb[t] < gw[t] by {
                assert(mnb[t] <= gbc[t] <= max_brick_spec(layout, max)[t]);
            }
        }
        let pos = brick_pos_of(layout, min, max, c);
        lemma_linearize_bounds(relb, gw);
        assert(0 <= pos < new_bricks.len());
        lemma_delinearize_linearize(relb, gw);
        assert(delinearize(pos, gw) == relb);
        assert(vec_add(mnb, relb) =~= gbc);
        let oldb = old_brick_or_zeros(layout, old_bricks, pos);
        assert(oldb.len() == layout.brick_bytes_spec()) by {
            assert(all_positive(ints_of(layout.brick_size.dims@)));
            lemma_product_positive(ints_of(layout.brick_size.dims@));
            assert(layout.brick_bytes_spec() >= 1) by (nonlinear_arith)
                requires
                    seq_product(ints_of(layout.brick_size.dims@)) >= 1,
                    layout.elem_bytes_spec() >= 1,
                    layout.brick_bytes_spec() == seq_product(ints_of(layout.brick_size.dims@))
                        * layout.elem_bytes_spec(),
            ;
            if old_bricks[pos] is Some {
                assert(old_bricks[pos]->0.len() == layout.brick_bytes_spec());
            } else {
                assert(zero_brick_spec(layout).len() == layout.brick_bytes_spec() as nat);
            }
        }
        let nb = overlay_spec(layout, gbc, oldb, min, max, data);
        assert(new_bricks[pos] == Some(nb));
        // the byte offset within the brick
        let glocal = vec_sub(c, vec_mul(gbc, bd));
        assert(in_box(glocal, bd)) by {
            assert forall|t: int| 0 <= t < d implies 0 <= #[trigger] glocal[t] < bd[t] by {
                let b = bd[t];
                lemma_fundamental_div_mod(c[t], b);
                vstd::arithmetic::div_mod::lemma_mod_bound(c[t], b);
                assert(gbc[t] == c[t] / b);
                assert(b * (c[t] / b) == (c[t] / b) * b) by (nonlinear_arith);
                assert(vec_mul(gbc, bd)[t] == gbc[t] * b);
            }
        }
        let lloc = linearize(glocal, bd);
        lemma_linearize_bounds(glocal, bd);
        let q = lloc * e + k2;
        assert(result[p] == nb[brick_byte_off(layout, c, k2)]);
        assert(brick_byte_off(layout, c, k2) == q) by {
            assert(vec_sub(c, vec_mul(vec_div(c, bd), bd)) =~= glocal);
        }
        // q indexes the overlaid brick
        assert(nb.len() == oldb.len());
        assert(oldb.len() == seq_product(bd) * e);
        assert(lloc * e + k2 < seq_product(bd) * e) by (nonlinear_arith)
            requires
                0 <= lloc < seq_product(bd),
                0 <= k2 < e,
        ;
        lemma_fundamental_div_mod_converse(q, e, lloc, k2);
        assert(q / e == lloc);
        assert(q % e == k2);
        lemma_delinearize_linearize(glocal, bd);
        assert(delinearize(lloc, bd) == glocal);
        assert(vec_add(vec_mul(gbc, bd), glocal) =~= c);
        assert(voxel_in_slice(min, max, c));
        assert(nb[q] == data[linearize(vec_sub(c, min), gext) * e + k2]);
        assert(vec_sub(c, min) =~= rel);
        assert(linearize(rel, gext) == v);
        assert(nb[q] == data[v * e + k2]);
        assert(p == v * e + k2);
    }
    assert(result =~= data);
}

/// Under a valid slice request, every coordinate pair is ordered and every
/// upper coordinate lies within its axis, stated over the machine words.
proof fn lemma_valid_slice_coord_bounds(
    layout: VolumeDataLayout,
    min_coords: Seq<usize>,
    max_coords: Seq<usize>,
)
    requires
        valid_slice(layout, ints_of(min_coords), ints_of(max_coords)),
        layout.axes@.len() == layout.dimensionality,
    ensures
        forall|i: int| 0 <= i < min_coords.len() ==> #[trigger] min_coords[i] < max_coords[i],
        forall|i: int|
            0 <= i < max_coords.len() ==> #[trigger] max_coords[i]
                <= layout.axes@[i].num_samples,
{
    assert forall|i: int| 0 <= i < min_coords.len() implies #[trigger] min_coords[i]
        < max_coords[i] by {
        assert(ints_of(min_coords)[i] < ints_of(max_coords)[i]);
    }
    assert forall|i: int| 0 <= i < max_coords.len() implies #[trigger] max_coords[i]
        <= layout.axes@[i].num_samples by {
        assert(0 <= ints_of(min_coords)[i]);
        assert(ints_of(max_coords)[i] <= layout.dims_spec()[i]);
    }
}

/// Validate a read request and compute its brick plan: the linear indices of
/// the bricks to fetch, in window order. Exactly the valid requests are
/// planned; an invalid one fails before any brick is touched.
pub fn read_slice_plan(
    layout: &VolumeDataLayout,
    min_coords: &Vec<usize>,
    max_coords: &Vec<usize>,
) -> (r: Result<Vec<usize>, VdsError>)
    requires
        layout.wf(),
    ensures
        r is Ok <==> valid_slice(*layout, ints_of(min_coords@), ints_of(max_coords@)),
        r is Ok ==> ({
            let min = ints_of(min_coords@);
            let max = ints_of(max_coords@);
            &&& r->Ok_0@.len() == seq_product(window_spec(*layout, min, max))
            &&& forall|k: int|
                0 <= k < r->Ok_0@.len() ==> #[trigger] r->Ok_0@[k] as int == linearize(
                    vec_add(
                        min_brick_spec(*layout, min),
                        delinearize(k, window_spec(*layout, min, max)),
                    ),
                    layout.counts_spec(),
                )
            &&& forall|k: int|
                0 <= k < r->Ok_0@.len() ==> #[trigger] r->Ok_0@[k] < seq_product(
                    layout.counts_spec(),
                )
        }),
        r is Err ==> (r->Err_0 is InvalidDimensions || r->Err_0 is OutOfBounds),
        (min_coords@.len() != layout.dimensionality || max_coords@.len()
            != layout.dimensionality) ==> (r is Err && r->Err_0 is InvalidDimensions),
        (min_coords@.len() == layout.dimensionality && max_coords@.len()
            == layout.dimensionality && (exists|i: int|
            0 <= i < min_coords@.len() && #[trigger] min_coords@[i] >= max_coords@[i]) && (
        forall|i: int|
            0 <= i < max_coords@.len() ==> #[trigger] max_coords@[i]
                <= layout.axes@[i].num_samples)) ==> (r is Err
            && r->Err_0 is InvalidDimensions),
        (min_coords@.len() == layout.dimensionality && max_coords@.len()
            == layout.dimensionality && (forall|i: int|
            0 <= i < min_coords@.len() ==> #[trigger] min_coords@[i] < max_coords@[i]) && (
        exists|i: int|
            0 <= i < max_coords@.len() && #[trigger] max_coords@[i]
                > layout.axes@[i].num_samples)) ==> (r is Err && r->Err_0 is OutOfBounds),
{
    match validate_slice_request(layout, min_coords, max_coords) {
        Err(e) => Err(e),
        Ok(()) => {
            proof {
                lemma_valid_slice_coord_bounds(*layout, min_coords@, max_coords@);
            }
            Ok(get_overlapping_bricks(layout, min_coords, max_coords))
        },
    }
}

/// Validate a write request and compute its brick plan. Beyond the checks a
/// read makes, the data handed in must hold exactly one byte for every byte
/// of the requested region; a mismatch is rejected before any brick is
/// touched.
pub fn write_slice_plan(
    layout: &VolumeDataLayout,
    min_coords: &Vec<usize>,
    max_coords: &Vec<usize>,
    data_len: usize,
) -> (r: Result<Vec<usize>, VdsError>)
    requires
        layout.wf(),
    ensures
        r is Ok <==> (valid_slice(*layout, ints_of(min_coords@), ints_of(max_coords@))
            && data_len == slice_bytes_spec(
            *layout,
            ints_of(min_coords@),
            ints_of(max_coords@),
        )),
        r is Ok ==> ({
            let min = ints_of(min_coords@);
            let max = ints_of(max_coords@);
            &&& r->Ok_0@.len() == seq_product(window_spec(*layout, min, max))
            &&& forall|k: int|
                0 <= k < r->Ok_0@.len() ==> #[trigger] r->Ok_0@[k] as int == linearize(
                    vec_add(
                        min_brick_spec(*layout, min),
                        delinearize(k, window_spec(*layout, min, max)),
                    ),
                    layout.counts_spec(),
                )
            &&& forall|k: int|
                0 <= k < r->Ok_0@.len() ==> #[trigger] r->Ok_0@[k] < seq_product(
                    layout.counts_spec(),
                )
        }),
        r is Err ==> (r->Err_0 is InvalidDimensions || r->Err_0 is OutOfBounds),
        (min_coords@.len() != layout.dimensionality || max_coords@.len()
            != layout.dimensionality) ==> (r is Err && r->Err_0 is InvalidDimensions),
        (min_coords@.len() == layout.dimensionality && max_coords@.len()
            == layout.dimensionality && (exists|i: int|
            0 <= i < min_coords@.len() && #[trigger] min_coords@[i] >= max_coords@[i]) && (
        forall|i: int|
            0 <= i < max_coords@.len() ==> #[trigger] max_coords@[i]
                <= layout.axes@[i].num_samples)) ==> (r is Err
            && r->Err_0 is InvalidDimensions),
        (min_coords@.len() == layout.dimensionality && max_coords@.len()
            == layout.dimensionality && (forall|i: int|
            0 <= i < min_coords@.len() ==> #[trigger] min_coords@[i] < max_coords@[i]) && (
        exists|i: int|
            0 <= i < max_coords@.len() && #[trigger] max_coords@[i]
                > layout.axes@[i].num_samples)) ==> (r is Err && r->Err_0 is OutOfBounds),
{
    match validate_slice_request(layout, min_coords, max_coords) {
        Err(e) => {
            return Err(e);
        },
        Ok(()) => {},
    }
    proof {
        lemma_valid_slice_coord_bounds(*layout, min_coords@, max_coords@);
    }
    let ghost min = ints_of(min_coords@);
    let ghost max = ints_of(max_coords@);
    proof {
        lemma_window_facts(*layout, min, max);
        lemma_product_positive(slice_extent(min, max));
        assert(seq_product(slice_extent(min, max)) <= seq_product(slice_extent(min, max))
            * layout.elem_bytes_spec()) by (nonlinear_arith)
            requires
                seq_product(slice_extent(min, max)) >= 1,
                layout.elem_bytes_spec() >= 1,
        ;
    }
    let ext = slice_extent_vec(min_coords, max_coords);
    let expected = product_of(&ext) * layout.data_type.size_in_bytes();
    if data_len != expected {
        return Err(
            VdsError::InvalidDimensions(
                String::from_str("Data size does not match the requested extent"),
            ),
        );
    }
    Ok(get_overlapping_bricks(layout, min_coords, max_coords))
}

/// Statistics about a volume.
#[derive(Debug, Clone)]
pub struct VolumeStats {
    /// Dimensionality of the volume
    pub dimensionality: usize,
    /// Total number of voxels
    pub total_voxels: usize,
    /// Total number of bricks
    pub total_bricks: usize,
    /// Uncompressed size in bytes
    pub uncompressed_size: usize,
    /// Element data type
    pub data_type: DataType,
    /// Compression method used for bricks
    pub compression_method: CompressionMethod,
}

/// The one-line rendering of a volume's statistics.
pub open spec fn stats_summary_spec(s: VolumeStats) -> Seq<char> {
    dec_str(s.dimensionality as int) + "D Volume: "@ + dec_str(s.total_voxels as int)
        + " voxels, "@ + dec_str(s.total_bricks as int) + " bricks, "@ + format_bytes_spec(
        s.uncompressed_size as int,
    ) + " uncompressed ("@ + s.data_type.spec_label() + ", "@
        + s.compression_method.spec_label() + ")"@
}

impl VolumeStats {
    /// Compute the statistics of a volume from its layout and compression
    /// method.
    pub fn from_layout(layout: &VolumeDataLayout, compression: CompressionMethod) -> (r:
        VolumeStats)
        requires
            layout.wf(),
        ensures
            r.dimensionality == layout.dimensionality,
            r.total_voxels == seq_product(layout.dims_spec()),
            r.total_bricks == seq_product(layout.counts_spec()),
            r.uncompressed_size == seq_product(layout.dims_spec()) * layout.elem_bytes_spec(),
            r.data_type == layout.data_type,
            r.compression_method == compression,
    {
        let sizes = layout.size();
        proof {
            assert(all_positive(layout.dims_spec()));
            lemma_product_positive(layout.dims_spec());
            assert(seq_product(layout.dims_spec()) <= seq_product(layout.dims_spec())
                * layout.elem_bytes_spec()) by (nonlinear_arith)
                requires
                    seq_product(layout.dims_spec()) >= 1,
                    layout.elem_bytes_spec() >= 1,
            ;
        }
        let total_voxels = product_of(&sizes);
        let total_bricks = layout.total_bricks();
        let uncompressed_size = layout.total_size_bytes();
        VolumeStats {
            dimensionality: layout.dimensionality,
            total_voxels,
            total_bricks,
            uncompressed_size,
            data_type: layout.data_type,
            compression_method: compression,
        }
    }

    /// One line describing the volume: dimensionality, voxel and brick
    /// counts, uncompressed size, data type and compression method.
    pub fn summary(&self) -> (r: String)
        ensures
            r@ == stats_summary_spec(*self),
    {
        let mut r = u64_to_dec(self.dimensionality as u64);
        r.append("D Volume: ");
        let voxels = u64_to_dec(self.total_voxels as u64);
        r.append(voxels.as_str());
        r.append(" voxels, ");
        let bricks = u64_to_dec(self.total_bricks as u64);
        r.append(bricks.as_str());
        r.append(" bricks, ");
        let size_s = format_bytes(self.uncompressed_size);
        r.append(size_s.as_str());
        r.append(" uncompressed (");
        r.append(self.data_type.label());
        r.append(", ");
        r.append(self.compression_method.label());
        r.append(")");
        proof {
            assert(r@ =~= stats_summary_spec(*self));
        }
        r
    }
}

/// A slice over the whole volume touches every brick: its brick window is
/// the whole brick grid, and the overlapping-brick enumeration yields
/// exactly the linear indices `0, 1, ...` up to the total brick count.
pub proof fn lemma_full_slice_covers_volume(layout: VolumeDataLayout)
    requires
        layout.wf(),
    ensures
        ({
            let min = Seq::new(layout.dimensionality as nat, |i: int| 0int);
            let max = layout.dims_spec();
            &&& valid_slice(layout, min, max)
            &&& window_spec(layout, min, max) =~= layout.counts_spec()
            &&& seq_product(window_spec(layout, min, max)) == seq_product(layout.counts_spec())
            &&& forall|k: int|
                0 <= k < seq_product(layout.counts_spec()) ==> #[trigger] linearize(
                    vec_add(
                        min_brick_spec(layout, min),
                        delinearize(k, window_spec(layout, min, max)),
                    ),
                    layout.counts_spec(),
                ) == k
        }),
{
    let d = layout.dimensionality as int;
    let min = Seq::new(layout.dimensionality as nat, |i: int| 0int);
    let max = layout.dims_spec();
    assert forall|i: int| 0 <= i < min.len() implies 0 <= #[trigger] min[i] && min[i] < max[i]
        && max[i] <= layout.dims_spec()[i] by {
        assert(layout.axes@[i].num_samples >= 1);
    }
    assert(valid_slice(layout, min, max));
    lemma_wf_counts_positive(layout);
    assert forall|i: int| 0 <= i < d implies #[trigger] window_spec(layout, min, max)[i]
        == layout.counts_spec()[i] by {
        let b = layout.brick_dims_spec()[i];
        let n = layout.dims_spec()[i];
        let q = ceil_div(n, b);
        lemma_ceil_div_bounds(n, b);
        vstd::arithmetic::div_mod::lemma_div_of0(b);
        assert(min_brick_spec(layout, min)[i] == 0);
        assert((q - 1) * b + (b - 1) == q * b - 1) by (nonlinear_arith);
        lemma_fundamental_div_mod_converse(q * b - 1, b, q - 1, b - 1);
        lemma_div_is_ordered(n - 1, q * b - 1, b);
        lemma_div_pos_is_pos(n - 1, b);
        assert((q - 1) * b < n);
        lemma_div_is_ordered((q - 1) * b, n - 1, b);
        vstd::arithmetic::div_mod::lemma_div_multiples_vanish(q - 1, b);
        assert(b * (q - 1) == (q - 1) * b) by (nonlinear_arith);
        assert((n - 1) / b == q - 1);
        assert(max_brick_spec(layout, max)[i] == q - 1);
    }
    assert(window_spec(layout, min, max) =~= layout.counts_spec());
    assert forall|k: int| 0 <= k < seq_product(layout.counts_spec()) implies #[trigger] linearize(
        vec_add(min_brick_spec(layout, min), delinearize(k, window_spec(layout, min, max))),
        layout.counts_spec(),
    ) == k by {
        lemma_linearize_delinearize(k, layout.counts_spec());
        let rel = delinearize(k, layout.counts_spec());
        assert(vec_add(min_brick_spec(layout, min), rel) =~= rel);
    }
}

} // verus!
