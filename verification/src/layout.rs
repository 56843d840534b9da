//! Volume data layout: how a volume is divided into bricks, and the
//! coordinate arithmetic over that division.

use crate::error::VdsError;
use crate::indexing::{
    all_positive, delin_index, delinearize, in_box, ints_of, lemma_delinearize_linearize,
    lemma_linearize_bounds, lemma_linearize_delinearize, lemma_product_positive,
    lemma_product_prefix_le, lin_index, linearize, product_of, seq_product,
};
use crate::types::{AxisDescriptor, DataType};
use crate::utils::{dec_str, u64_to_dec};
use vstd::arithmetic::div_mod::{lemma_fundamental_div_mod, lemma_mod_bound};
use vstd::prelude::*;
use vstd::string::StringExecFns;

verus! {

/// Ceiling division for non-negative operands.
pub open spec fn ceil_div(n: int, b: int) -> int {
    (n + b - 1) / b
}

/// Basic facts about ceiling division: the result is the least multiple
/// counter covering `n`.
pub proof fn lemma_ceil_div_bounds(n: int, b: int)
    requires
        n >= 1,
        b >= 1,
    ensures
        ceil_div(n, b) >= 1,
        (ceil_div(n, b) - 1) * b < n,
        n <= ceil_div(n, b) * b,
{
    let q = ceil_div(n, b);
    let r = (n + b - 1) % b;
    lemma_fundamental_div_mod(n + b - 1, b);
    lemma_mod_bound(n + b - 1, b);
    assert(b * q == n + b - 1 - r);
    assert(b * q == q * b) by (nonlinear_arith);
    assert((q - 1) * b == q * b - b) by (nonlinear_arith);
    if q < 1 {
        assert(q * b <= 0) by (nonlinear_arith)
            requires
                q <= 0,
                b >= 1,
        ;
    }
}

/// Size of a brick in each dimension. Dimensions the volume does not use are
/// fixed at one.
#[derive(Debug, Clone, Copy, PartialEq, Eq)]
pub struct BrickSize {
    /// Extent of a brick in each of the six possible dimensions
    pub dims: [usize; 6],
}

impl BrickSize {
    /// Create a new brick size.
    pub fn new(dims: [usize; 6]) -> (r: Self)
        ensures
            r.dims@ == dims@,
    {
        BrickSize { dims }
    }

    /// Create a brick size whose first `dimensionality` extents are `size`
    /// and whose remaining extents are one.
    pub fn with_dimensionality(dimensionality: usize, size: usize) -> (r: Result<
        Self,
        VdsError,
    >)
        ensures
            r is Ok <==> dimensionality <= 6,
            r is Ok ==> {
                &&& r->Ok_0.dims@.len() == 6
                &&& forall|i: int|
                    0 <= i < 6 ==> r->Ok_0.dims@[i] == if i < dimensionality {
                        size as int
                    } else {
                        1int
                    }
            },
            r is Err ==> r->Err_0 is InvalidDimensions,
    {
        let s = size;
        let dims: [usize; 6] = match dimensionality {
            0 => [1, 1, 1, 1, 1, 1],
            1 => [s, 1, 1, 1, 1, 1],
            2 => [s, s, 1, 1, 1, 1],
            3 => [s, s, s, 1, 1, 1],
            4 => [s, s, s, s, 1, 1],
            5 => [s, s, s, s, s, 1],
            6 => [s, s, s, s, s, s],
            _ => {
                return Err(
                    VdsError::InvalidDimensions(String::from_str("Dimensionality must be <= 6")),
                );
            },
        };
        Ok(BrickSize { dims })
    }

    /// Extent of a brick along dimension `dim`; one for dimensions beyond the
    /// sixth.
    pub fn get(&self, dim: usize) -> (r: usize)
        ensures
            r == if dim < 6 {
                self.dims@[dim as int] as int
            } else {
                1int
            },
    {
        if dim < 6 {
            self.dims[dim]
        } else {
            1
        }
    }

    /// All six extents.
    pub fn dims(&self) -> (r: &[usize; 6])
        ensures
            r@ == self.dims@,
    {
        &self.dims
    }

    /// Total number of voxels in a brick.
    pub fn total_voxels(&self) -> (r: usize)
        requires
            all_positive(ints_of(self.dims@)),
            seq_product(ints_of(self.dims@)) <= usize::MAX,
        ensures
            r == seq_product(ints_of(self.dims@)),
    {
        let v: Vec<usize> = slice_to_vec_usize(&self.dims);
        product_of(&v)
    }
}

/// The product of two word-sized values fits a double word.
proof fn lemma_u64_mul_fits_u128(x: int, y: int)
    requires
        0 <= x <= 0xFFFFFFFFFFFFFFFF,
        0 <= y <= 0xFFFFFFFFFFFFFFFF,
    ensures
        x * y <= 0xFFFFFFFFFFFFFFFFFFFFFFFFFFFFFFFF,
{
    assert(x * y <= 0xFFFFFFFFFFFFFFFF * 0xFFFFFFFFFFFFFFFF) by (nonlinear_arith)
        requires
            0 <= x <= 0xFFFFFFFFFFFFFFFF,
            0 <= y <= 0xFFFFFFFFFFFFFFFF,
    ;
}

/// Whether the product of the extents, times the element size `e`, fits the
/// machine's word.
fn product_times_fits(dims: &Vec<usize>, e: usize) -> (r: bool)
    requires
        all_positive(ints_of(dims@)),
        e >= 1,
    ensures
        r == (seq_product(ints_of(dims@)) * e <= usize::MAX),
{
    let ghost gd = ints_of(dims@);
    let n = dims.len();
    let mut acc: u128 = 1;
    let mut i: usize = 0;
    proof {
        assert(gd.subrange(0, 0) =~= Seq::<int>::empty());
    }
    while i < n
        invariant
            0 <= i <= n,
            n == dims@.len(),
            gd == ints_of(dims@),
            all_positive(gd),
            e >= 1,
            acc <= usize::MAX,
            acc as int == seq_product(gd.subrange(0, i as int)),
        decreases n - i,
    {
        let d = dims[i];
        proof {
            let cur = gd.subrange(0, i + 1);
            assert(cur.drop_last() =~= gd.subrange(0, i as int));
            assert(cur.last() == d as int);
            assert((acc as int) * (d as int) == seq_product(cur));
            assert((acc as u128) * (d as u128) == (acc as int) * (d as int)) by (nonlinear_arith)
                requires
                    acc as int >= 0,
                    d as int >= 0,
                    acc as u128 as int == acc as int,
                    d as u128 as int == d as int,
                    acc as u128 <= 0xFFFFFFFFFFFFFFFFu128,
                    d as u128 <= 0xFFFFFFFFFFFFFFFFu128,
            ;
        }
        proof {
            lemma_u64_mul_fits_u128(acc as int, d as int);
        }
        let next: u128 = acc * (d as u128);
        if next > usize::MAX as u128 {
            proof {
                lemma_product_prefix_le(gd, i + 1);
                assert(seq_product(gd) >= seq_product(gd.subrange(0, i + 1)));
                assert(seq_product(gd) * e >= seq_product(gd)) by (nonlinear_arith)
                    requires
                        seq_product(gd) >= 1,
                        e >= 1,
                ;
                lemma_product_positive(gd);
            }
            return false;
        }
        acc = next;
        i = i + 1;
    }
    proof {
        assert(gd.subrange(0, n as int) =~= gd);
        assert((acc as u128) * (e as u128) == (acc as int) * (e as int)) by (nonlinear_arith)
            requires
                acc as int >= 0,
                e as int >= 0,
                acc as u128 as int == acc as int,
                e as u128 as int == e as int,
                acc as u128 <= 0xFFFFFFFFFFFFFFFFu128,
                e as u128 <= 0xFFFFFFFFFFFFFFFFu128,
        ;
    }
    proof {
        lemma_u64_mul_fits_u128(acc as int, e as int);
    }
    let total: u128 = acc * (e as u128);
    total <= usize::MAX as u128
}

/// Copies a six-element array into a vector.
fn slice_to_vec_usize(a: &[usize; 6]) -> (r: Vec<usize>)
    ensures
        r@ == a@,
{
    let mut v: Vec<usize> = Vec::new();
    let mut i: usize = 0;
    while i < 6
        invariant
            0 <= i <= 6,
            v@.len() == i,
            forall|t: int| 0 <= t < i ==> v@[t] == a@[t],
        decreases 6 - i,
    {
        v.push(a[i]);
        i = i + 1;
    }
    proof {
        assert(v@ =~= a@);
    }
    v
}

impl Default for BrickSize {
    /// The common default: 64 voxels along each of the first three
    /// dimensions.
    fn default() -> (r: Self)
        ensures
            r.dims@ =~= seq![64usize, 64usize, 64usize, 1usize, 1usize, 1usize],
    {
        let r = BrickSize { dims: [64, 64, 64, 1, 1, 1] };
        proof {
            assert(r.dims@ =~= seq![64usize, 64usize, 64usize, 1usize, 1usize, 1usize]);
        }
        r
    }
}

/// Layout of volume data: describes how the volume is organized.
#[derive(Debug, Clone)]
pub struct VolumeDataLayout {
    /// Dimensionality (1-6)
    pub dimensionality: usize,
    /// Data type of the volume
    pub data_type: DataType,
    /// Axis descriptors for each dimension
    pub axes: Vec<AxisDescriptor>,
    /// Brick size for chunking
    pub brick_size: BrickSize,
    /// Number of LOD (level of detail) levels
    pub lod_levels: usize,
    /// Negative margin (overlap) in each dimension; stored but not consumed
    /// by slice assembly
    pub negative_margin: [usize; 6],
    /// Positive margin (overlap) in each dimension; stored but not consumed
    /// by slice assembly
    pub positive_margin: [usize; 6],
}

impl VolumeDataLayout {
    /// Sample count along each of the volume's dimensions.
    pub open spec fn dims_spec(&self) -> Seq<int> {
        Seq::new(self.dimensionality as nat, |i: int| self.axes@[i].num_samples as int)
    }

    /// Brick extent along each of the volume's dimensions.
    pub open spec fn brick_dims_spec(&self) -> Seq<int> {
        Seq::new(self.dimensionality as nat, |i: int| self.brick_size.dims@[i] as int)
    }

    /// Number of bricks along each of the volume's dimensions.
    pub open spec fn counts_spec(&self) -> Seq<int> {
        Seq::new(
            self.dimensionality as nat,
            |i: int| ceil_div(self.dims_spec()[i], self.brick_dims_spec()[i]),
        )
    }

    /// Size in bytes of one sample.
    pub open spec fn elem_bytes_spec(&self) -> int {
        self.data_type.spec_size_in_bytes()
    }

    /// Number of bytes in one (padded) brick buffer.
    pub open spec fn brick_bytes_spec(&self) -> int {
        seq_product(ints_of(self.brick_size.dims@)) * self.elem_bytes_spec()
    }

    /// Well-formedness: the dimensionality is in range, every axis has at
    /// least one sample, brick extents are positive and padded to one beyond
    /// the dimensionality, and the volume's total sizes fit the machine's
    /// word.
    pub open spec fn wf(&self) -> bool {
        &&& 1 <= self.dimensionality <= 6
        &&& self.axes@.len() == self.dimensionality
        &&& (forall|i: int|
            0 <= i < self.dimensionality ==> (#[trigger] self.axes@[i]).num_samples >= 1)
        &&& (forall|i: int| 0 <= i < 6 ==> (#[trigger] self.brick_size.dims@[i]) >= 1)
        &&& (forall|i: int|
            self.dimensionality <= i < 6 ==> (#[trigger] self.brick_size.dims@[i]) == 1)
        &&& (forall|i: int|
            0 <= i < self.dimensionality ==> (#[trigger] self.axes@[i]).num_samples
                + self.brick_size.dims@[i] <= usize::MAX)
        &&& (forall|i: int|
            0 <= i < self.dimensionality ==> #[trigger] (self.counts_spec()[i]
                * self.brick_dims_spec()[i]) <= usize::MAX)
        &&& seq_product(self.counts_spec()) <= usize::MAX
        &&& seq_product(self.dims_spec()) * self.elem_bytes_spec() <= usize::MAX
        &&& seq_product(ints_of(self.brick_size.dims@)) * self.elem_bytes_spec() <= usize::MAX
    }

    /// Create a new volume data layout. The brick size defaults to 64 voxels
    /// along each used dimension, there is one level of detail, and the
    /// margins are zero.
    pub fn new(dimensionality: usize, data_type: DataType, axes: Vec<AxisDescriptor>) -> (r:
        Result<Self, VdsError>)
        ensures
            r is Ok <==> (1 <= dimensionality <= 6 && axes@.len() == dimensionality),
            r is Ok ==> {
                &&& r->Ok_0.dimensionality == dimensionality
                &&& r->Ok_0.data_type == data_type
                &&& r->Ok_0.axes == axes
                &&& forall|i: int|
                    0 <= i < 6 ==> (#[trigger] r->Ok_0.brick_size.dims@[i]) == if i
                        < dimensionality {
                        64int
                    } else {
                        1int
                    }
                &&& r->Ok_0.lod_levels == 1
                &&& forall|i: int|
                    0 <= i < 6 ==> (#[trigger] r->Ok_0.negative_margin@[i]) == 0
                        && r->Ok_0.positive_margin@[i] == 0
            },
            r is Err ==> r->Err_0 is InvalidDimensions,
    {
        if dimensionality == 0 || dimensionality > 6 {
            return Err(
                VdsError::InvalidDimensions(
                    String::from_str("Dimensionality must be between 1 and 6"),
                ),
            );
        }
        if axes.len() != dimensionality {
            return Err(
                VdsError::InvalidDimensions(
                    String::from_str("Number of axes must match dimensionality"),
                ),
            );
        }
        let brick_size = match BrickSize::with_dimensionality(dimensionality, 64) {
            Ok(b) => b,
            Err(_) => {
                proof {
                    assert(false);
                }
                BrickSize { dims: [1, 1, 1, 1, 1, 1] }
            },
        };
        Ok(
            VolumeDataLayout {
                dimensionality,
                data_type,
                axes,
                brick_size,
                lod_levels: 1,
                negative_margin: [0, 0, 0, 0, 0, 0],
                positive_margin: [0, 0, 0, 0, 0, 0],
            },
        )
    }

    /// Set the brick size.
    pub fn with_brick_size(self, brick_size: BrickSize) -> (r: Self)
        ensures
            r == (VolumeDataLayout { brick_size, ..self }),
    {
        VolumeDataLayout { brick_size, ..self }
    }

    /// Set the number of LOD levels.
    pub fn with_lod_levels(self, lod_levels: usize) -> (r: Self)
        ensures
            r == (VolumeDataLayout { lod_levels, ..self }),
    {
        VolumeDataLayout { lod_levels, ..self }
    }

    /// Set the margins.
    pub fn with_margins(self, negative_margin: [usize; 6], positive_margin: [usize; 6]) -> (r:
        Self)
        ensures
            r == (VolumeDataLayout { negative_margin, positive_margin, ..self }),
    {
        VolumeDataLayout { negative_margin, positive_margin, ..self }
    }

    /// The total size in each dimension.
    pub fn size(&self) -> (r: Vec<usize>)
        requires
            self.axes@.len() == self.dimensionality,
        ensures
            ints_of(r@) =~= self.dims_spec(),
    {
        let mut r: Vec<usize> = Vec::new();
        let mut i: usize = 0;
        while i < self.dimensionality
            invariant
                0 <= i <= self.dimensionality,
                self.axes@.len() == self.dimensionality,
                r@.len() == i,
                forall|t: int| 0 <= t < i ==> r@[t] == self.axes@[t].num_samples,
            decreases self.dimensionality - i,
        {
            r.push(self.axes[i].num_samples);
            i = i + 1;
        }
        r
    }

    /// The number of bricks in each dimension: the sample count of each axis
    /// divided by the brick extent, rounded up.
    pub fn brick_count(&self) -> (r: Vec<usize>)
        requires
            self.wf(),
        ensures
            ints_of(r@) =~= self.counts_spec(),
    {
        let mut r: Vec<usize> = Vec::new();
        let mut i: usize = 0;
        while i < self.dimensionality
            invariant
                0 <= i <= self.dimensionality,
                self.wf(),
                r@.len() == i,
                forall|t: int| 0 <= t < i ==> r@[t] == self.counts_spec()[t],
            decreases self.dimensionality - i,
        {
            let ns = self.axes[i].num_samples;
            let b = self.brick_size.get(i);
            proof {
                assert(self.axes@[i as int].num_samples + self.brick_size.dims@[i as int]
                    <= usize::MAX);
                assert(self.counts_spec()[i as int] == ceil_div(ns as int, b as int));
            }
            r.push((ns + b - 1) / b);
            i = i + 1;
        }
        r
    }

    /// The total number of bricks.
    pub fn total_bricks(&self) -> (r: usize)
        requires
            self.wf(),
        ensures
            r == seq_product(self.counts_spec()),
    {
        let counts = self.brick_count();
        proof {
            lemma_wf_counts_positive(*self);
        }
        product_of(&counts)
    }

    /// Convert a linear brick index to brick coordinates, in row-major order
    /// with the last dimension varying fastest. This ordering is persisted in
    /// brick paths and must not change.
    pub fn brick_index_to_coords(&self, index: usize) -> (r: Vec<usize>)
        requires
            self.wf(),
            index < seq_product(self.counts_spec()),
        ensures
            ints_of(r@) == delinearize(index as int, self.counts_spec()),
            in_box(ints_of(r@), self.counts_spec()),
            r@.len() == self.dimensionality,
    {
        let counts = self.brick_count();
        proof {
            lemma_wf_counts_positive(*self);
            lemma_linearize_delinearize(index as int, self.counts_spec());
        }
        delin_index(index, &counts)
    }

    /// Convert brick coordinates to a linear brick index, in row-major order
    /// with the last dimension varying fastest.
    pub fn brick_coords_to_index(&self, coords: &Vec<usize>) -> (r: usize)
        requires
            self.wf(),
            in_box(ints_of(coords@), self.counts_spec()),
        ensures
            r == linearize(ints_of(coords@), self.counts_spec()),
            r < seq_product(self.counts_spec()),
    {
        let counts = self.brick_count();
        proof {
            lemma_wf_counts_positive(*self);
            lemma_linearize_bounds(ints_of(coords@), self.counts_spec());
        }
        lin_index(coords, &counts)
    }

    /// Start of the voxel range covered by a brick along dimension `i`.
    pub open spec fn brick_range_start_spec(&self, coords: Seq<int>, i: int) -> int {
        coords[i] * self.brick_dims_spec()[i]
    }

    /// End (exclusive) of the voxel range covered by a brick along dimension
    /// `i`: the brick extent clipped at the volume boundary.
    pub open spec fn brick_range_end_spec(&self, coords: Seq<int>, i: int) -> int {
        let unclipped = self.brick_range_start_spec(coords, i) + self.brick_dims_spec()[i];
        if unclipped <= self.dims_spec()[i] {
            unclipped
        } else {
            self.dims_spec()[i]
        }
    }

    /// The voxel range `(start, end)` covered by a brick in each dimension.
    /// Boundary bricks are clipped on the high side of each dimension.
    pub fn brick_data_range(&self, brick_coords: &Vec<usize>) -> (r: Vec<(usize, usize)>)
        requires
            self.wf(),
            in_box(ints_of(brick_coords@), self.counts_spec()),
        ensures
            r@.len() == self.dimensionality,
            forall|i: int|
                0 <= i < self.dimensionality ==> (#[trigger] r@[i]).0
                    == self.brick_range_start_spec(ints_of(brick_coords@), i) && r@[i].1
                    == self.brick_range_end_spec(ints_of(brick_coords@), i),
    {
        let ghost gc = ints_of(brick_coords@);
        let mut r: Vec<(usize, usize)> = Vec::new();
        let mut i: usize = 0;
        while i < self.dimensionality
            invariant
                0 <= i <= self.dimensionality,
                self.wf(),
                in_box(gc, self.counts_spec()),
                gc == ints_of(brick_coords@),
                r@.len() == i,
                forall|t: int|
                    0 <= t < i ==> (#[trigger] r@[t]).0 == self.brick_range_start_spec(gc, t)
                        && r@[t].1 == self.brick_range_end_spec(gc, t),
            decreases self.dimensionality - i,
        {
            let c = brick_coords[i];
            let b = self.brick_size.get(i);
            let ns = self.axes[i].num_samples;
            proof {
                let cnt = self.counts_spec()[i as int];
                assert(self.counts_spec()[i as int] * self.brick_dims_spec()[i as int]
                    <= usize::MAX);
                assert(self.brick_dims_spec()[i as int] == b as int);
                assert(cnt * b <= usize::MAX);
                assert(gc[i as int] == brick_coords@[i as int] as int);
                assert(gc[i as int] < cnt);
                assert(c + 1 <= cnt);
                assert((c + 1) * b <= cnt * b) by (nonlinear_arith)
                    requires
                        c + 1 <= cnt,
                        b >= 1,
                ;
                assert((c + 1) * b == c * b + b) by (nonlinear_arith);
                assert(c * b >= 0) by (nonlinear_arith)
                    requires
                        c >= 0,
                        b >= 0,
                ;
            }
            let start = c * b;
            let unclipped = start + b;
            let end = if unclipped <= ns {
                unclipped
            } else {
                ns
            };
            r.push((start, end));
            i = i + 1;
        }
        r
    }

    /// Size in bytes of a single (padded) brick buffer.
    pub fn brick_size_bytes(&self) -> (r: usize)
        requires
            self.wf(),
        ensures
            r == self.brick_bytes_spec(),
    {
        proof {
            lemma_product_positive(ints_of(self.brick_size.dims@));
            assert(seq_product(ints_of(self.brick_size.dims@)) <= seq_product(
                ints_of(self.brick_size.dims@),
            ) * self.elem_bytes_spec()) by (nonlinear_arith)
                requires
                    seq_product(ints_of(self.brick_size.dims@)) >= 1,
                    self.elem_bytes_spec() >= 1,
            ;
        }
        let voxels = self.brick_size.total_voxels();
        let e = self.data_type.size_in_bytes();
        voxels * e
    }

    /// Total uncompressed size of the volume in bytes.
    pub fn total_size_bytes(&self) -> (r: usize)
        requires
            self.wf(),
        ensures
            r == seq_product(self.dims_spec()) * self.elem_bytes_spec(),
    {
        let sizes = self.size();
        proof {
            assert(all_positive(self.dims_spec()));
            lemma_product_positive(self.dims_spec());
            assert(seq_product(self.dims_spec()) <= seq_product(self.dims_spec())
                * self.elem_bytes_spec()) by (nonlinear_arith)
                requires
                    seq_product(self.dims_spec()) >= 1,
                    self.elem_bytes_spec() >= 1,
            ;
        }
        let voxels = product_of(&sizes);
        let e = self.data_type.size_in_bytes();
        voxels * e
    }

    /// Decide well-formedness at run time, so that callers outside the
    /// verified core can test it before using the geometry.
    pub fn is_well_formed(&self) -> (r: bool)
        ensures
            r == self.wf(),
    {
        if self.dimensionality < 1 || self.dimensionality > 6 {
            return false;
        }
        if self.axes.len() != self.dimensionality {
            return false;
        }
        let d = self.dimensionality;
        let mut i: usize = 0;
        while i < d
            invariant
                0 <= i <= d,
                d == self.dimensionality <= 6,
                self.axes@.len() == d,
                forall|t: int| 0 <= t < i ==> (#[trigger] self.axes@[t]).num_samples >= 1,
            decreases d - i,
        {
            if self.axes[i].num_samples < 1 {
                return false;
            }
            i = i + 1;
        }
        let mut i2: usize = 0;
        while i2 < 6
            invariant
                0 <= i2 <= 6,
                forall|t: int| 0 <= t < i2 ==> (#[trigger] self.brick_size.dims@[t]) >= 1,
            decreases 6 - i2,
        {
            if self.brick_size.dims[i2] < 1 {
                return false;
            }
            i2 = i2 + 1;
        }
        let mut i3: usize = d;
        while i3 < 6
            invariant
                d <= i3 <= 6,
                d == self.dimensionality,
                forall|t: int| d <= t < i3 ==> (#[trigger] self.brick_size.dims@[t]) == 1,
            decreases 6 - i3,
        {
            if self.brick_size.dims[i3] != 1 {
                return false;
            }
            i3 = i3 + 1;
        }
        let mut i4: usize = 0;
        while i4 < d
            invariant
                0 <= i4 <= d,
                d == self.dimensionality <= 6,
                self.axes@.len() == d,
                forall|t: int| 0 <= t < d ==> (#[trigger] self.axes@[t]).num_samples >= 1,
                forall|t: int| 0 <= t < 6 ==> (#[trigger] self.brick_size.dims@[t]) >= 1,
                forall|t: int|
                    0 <= t < i4 ==> (#[trigger] self.axes@[t]).num_samples
                        + self.brick_size.dims@[t] <= usize::MAX,
                forall|t: int|
                    0 <= t < i4 ==> #[trigger] (self.counts_spec()[t] * self.brick_dims_spec()[t])
                        <= usize::MAX,
            decreases d - i4,
        {
            let ns = self.axes[i4].num_samples;
            let b = self.brick_size.dims[i4];
            if (ns as u128) + (b as u128) > usize::MAX as u128 {
                return false;
            }
            let count = (ns + b - 1) / b;
            proof {
                assert(self.counts_spec()[i4 as int] == ceil_div(ns as int, b as int));
            }
            proof {
                lemma_u64_mul_fits_u128(count as int, b as int);
            }
            if (count as u128) * (b as u128) > usize::MAX as u128 {
                proof {
                    assert(count as u128 as int == count as int);
                    assert((count as u128) * (b as u128) == (count as int) * (b as int))
                        by (nonlinear_arith)
                        requires
                            count as u128 as int == count as int,
                            b as u128 as int == b as int,
                    ;
                }
                return false;
            }
            proof {
                assert((count as u128) * (b as u128) == (count as int) * (b as int))
                    by (nonlinear_arith)
                    requires
                        count as u128 as int == count as int,
                        b as u128 as int == b as int,
                ;
            }
            i4 = i4 + 1;
        }
        // the three product bounds
        let counts = self.counts_checked();
        let counts_ok = match counts {
            Some(_) => true,
            None => false,
        };
        if !counts_ok {
            return false;
        }
        let mut dims_v: Vec<usize> = Vec::new();
        let mut i5: usize = 0;
        while i5 < d
            invariant
                0 <= i5 <= d,
                d == self.dimensionality,
                self.axes@.len() == d,
                dims_v@.len() == i5,
                forall|t: int| 0 <= t < i5 ==> #[trigger] dims_v@[t] == self.axes@[t].num_samples,
            decreases d - i5,
        {
            dims_v.push(self.axes[i5].num_samples);
            i5 = i5 + 1;
        }
        proof {
            assert(ints_of(dims_v@) =~= self.dims_spec());
            assert(all_positive(self.dims_spec()));
        }
        let e = self.data_type.size_in_bytes();
        if !product_times_fits(&dims_v, e) {
            return false;
        }
        let bs_v = slice_to_vec_usize(&self.brick_size.dims);
        proof {
            assert(ints_of(bs_v@) =~= ints_of(self.brick_size.dims@));
            assert(all_positive(ints_of(self.brick_size.dims@)));
        }
        if !product_times_fits(&bs_v, e) {
            return false;
        }
        true
    }

    /// The per-dimension brick counts, or nothing when their product would
    /// not fit the machine's word.
    fn counts_checked(&self) -> (r: Option<Vec<usize>>)
        requires
            1 <= self.dimensionality <= 6,
            self.axes@.len() == self.dimensionality,
            forall|i: int|
                0 <= i < self.dimensionality ==> (#[trigger] self.axes@[i]).num_samples >= 1,
            forall|i: int| 0 <= i < 6 ==> (#[trigger] self.brick_size.dims@[i]) >= 1,
            forall|i: int|
                0 <= i < self.dimensionality ==> (#[trigger] self.axes@[i]).num_samples
                    + self.brick_size.dims@[i] <= usize::MAX,
        ensures
            r is Some <==> seq_product(self.counts_spec()) <= usize::MAX,
            r is Some ==> ints_of(r->0@) =~= self.counts_spec(),
    {
        let d = self.dimensionality;
        let mut counts: Vec<usize> = Vec::new();
        let mut acc: u128 = 1;
        let mut i: usize = 0;
        proof {
            assert(self.counts_spec().subrange(0, 0) =~= Seq::<int>::empty());
            assert forall|t: int| 0 <= t < self.counts_spec().len() implies #[trigger]
            self.counts_spec()[t] >= 1 by {
                lemma_ceil_div_bounds(self.dims_spec()[t], self.brick_dims_spec()[t]);
            }
        }
        while i < d
            invariant
                0 <= i <= d,
                d == self.dimensionality <= 6,
                self.axes@.len() == d,
                forall|t: int| 0 <= t < d ==> (#[trigger] self.axes@[t]).num_samples >= 1,
                forall|t: int| 0 <= t < 6 ==> (#[trigger] self.brick_size.dims@[t]) >= 1,
                forall|t: int|
                    0 <= t < d ==> (#[trigger] self.axes@[t]).num_samples
                        + self.brick_size.dims@[t] <= usize::MAX,
                forall|t: int| 0 <= t < d ==> #[trigger] self.counts_spec()[t] >= 1,
                counts@.len() == i,
                forall|t: int| 0 <= t < i ==> #[trigger] counts@[t] as int == self.counts_spec()[t],
                acc <= usize::MAX,
                acc as int == seq_product(self.counts_spec().subrange(0, i as int)),
            decreases d - i,
        {
            let ns = self.axes[i].num_samples;
            let b = self.brick_size.dims[i];
            let count = (ns + b - 1) / b;
            proof {
                assert(self.counts_spec()[i as int] == ceil_div(ns as int, b as int));
                let cur = self.counts_spec().subrange(0, i + 1);
                assert(cur.drop_last() =~= self.counts_spec().subrange(0, i as int));
                assert(cur.last() == count as int);
                assert((acc as int) * (count as int) == seq_product(cur));
                assert((acc as u128) * (count as u128) == (acc as int) * (count as int))
                    by (nonlinear_arith)
                    requires
                        acc as int >= 0,
                        count as int >= 0,
                        acc as u128 as int == acc as int,
                        count as u128 as int == count as int,
                        acc as u128 <= 0xFFFFFFFFFFFFFFFFu128,
                        count as u128 <= 0xFFFFFFFFFFFFFFFFu128,
                ;
            }
            proof {
                lemma_u64_mul_fits_u128(acc as int, count as int);
            }
            let next: u128 = acc * (count as u128);
            if next > usize::MAX as u128 {
                proof {
                    assert(all_positive(self.counts_spec()));
                    lemma_product_prefix_le(self.counts_spec(), i + 1);
                }
                return None;
            }
            acc = next;
            counts.push(count);
            i = i + 1;
        }
        proof {
            assert(self.counts_spec().subrange(0, d as int) =~= self.counts_spec());
            assert(ints_of(counts@) =~= self.counts_spec());
        }
        Some(counts)
    }

    /// A voxel coordinate is in bounds iff it names each dimension once and
    /// every component is below the axis's sample count.
    pub fn is_in_bounds(&self, coords: &Vec<usize>) -> (r: bool)
        requires
            self.axes@.len() == self.dimensionality,
        ensures
            r == (coords@.len() == self.dimensionality && forall|i: int|
                0 <= i < coords@.len() ==> (#[trigger] coords@[i]) < self.axes@[i].num_samples),
    {
        if coords.len() != self.dimensionality {
            return false;
        }
        let mut i: usize = 0;
        while i < coords.len()
            invariant
                0 <= i <= coords@.len(),
                coords@.len() == self.dimensionality,
                self.axes@.len() == self.dimensionality,
                forall|t: int| 0 <= t < i ==> (#[trigger] coords@[t]) < self.axes@[t].num_samples,
            decreases coords@.len() - i,
        {
            if coords[i] >= self.axes[i].num_samples {
                return false;
            }
            i = i + 1;
        }
        true
    }
}

/// The per-axis sizes joined with " x ".
pub open spec fn sizes_join_spec(dims: Seq<int>) -> Seq<char>
    decreases dims.len(),
{
    if dims.len() == 0 {
        Seq::empty()
    } else if dims.len() == 1 {
        dec_str(dims[0])
    } else {
        sizes_join_spec(dims.drop_last()) + " x "@ + dec_str(dims.last())
    }
}

/// The one-line rendering of a layout: dimensionality, per-axis sizes, data
/// type, brick count, and the uncompressed size in hundredths of a
/// megabyte.
pub open spec fn layout_summary_spec(layout: VolumeDataLayout) -> Seq<char> {
    let h = crate::utils::scaled_hundredths(
        seq_product(layout.dims_spec()) * layout.elem_bytes_spec(),
        2,
    );
    dec_str(layout.dimensionality as int) + "D Volume: "@ + sizes_join_spec(layout.dims_spec())
        + " ("@ + layout.data_type.spec_label() + "), "@ + dec_str(
        seq_product(layout.counts_spec()),
    ) + " bricks, "@ + dec_str(h / 100) + "."@ + crate::utils::zero_pad(dec_str(h % 100), 2)
        + " MB uncompressed"@
}

impl VolumeDataLayout {
    /// One line describing the layout.
    pub fn summary(&self) -> (r: String)
        requires
            self.wf(),
        ensures
            r@ == layout_summary_spec(*self),
    {
        let sizes = self.size();
        let mut r = u64_to_dec(self.dimensionality as u64);
        r.append("D Volume: ");
        let mut js = String::new();
        let mut i: usize = 0;
        proof {
            assert(sizes_join_spec(self.dims_spec().subrange(0, 0)) =~= Seq::<char>::empty());
        }
        while i < sizes.len()
            invariant
                0 <= i <= sizes@.len(),
                self.wf(),
                ints_of(sizes@) =~= self.dims_spec(),
                sizes@.len() == self.dimensionality,
                js@ == sizes_join_spec(self.dims_spec().subrange(0, i as int)),
            decreases sizes@.len() - i,
        {
            if i > 0 {
                js.append(" x ");
            }
            let ds = u64_to_dec(sizes[i] as u64);
            js.append(ds.as_str());
            proof {
                let cur = self.dims_spec().subrange(0, i + 1);
                assert(cur.drop_last() =~= self.dims_spec().subrange(0, i as int));
                assert(cur.last() == self.dims_spec()[i as int]);
                assert(self.dims_spec()[i as int] == sizes@[i as int] as int);
                assert(js@ =~= sizes_join_spec(cur));
            }
            i = i + 1;
        }
        proof {
            assert(self.dims_spec().subrange(0, self.dimensionality as int) =~= self.dims_spec());
        }
        r.append(js.as_str());
        r.append(" (");
        r.append(self.data_type.label());
        r.append("), ");
        let tb = self.total_bricks();
        let tbs = u64_to_dec(tb as u64);
        r.append(tbs.as_str());
        r.append(" bricks, ");
        let total = self.total_size_bytes();
        let h = crate::utils::mb_hundredths(total);
        let hs = u64_to_dec(h / 100);
        r.append(hs.as_str());
        r.append(".");
        let fr = crate::utils::pad_left_zeros(u64_to_dec(h % 100), 2);
        r.append(fr.as_str());
        r.append(" MB uncompressed");
        proof {
            assert(r@ =~= layout_summary_spec(*self));
        }
        r
    }
}

/// Under well-formedness, every per-dimension brick count is at least one.
pub proof fn lemma_wf_counts_positive(layout: VolumeDataLayout)
    requires
        layout.wf(),
    ensures
        all_positive(layout.counts_spec()),
        layout.counts_spec().len() == layout.dimensionality,
{
    assert forall|i: int| 0 <= i < layout.counts_spec().len() implies layout.counts_spec()[i]
        >= 1 by {
        lemma_ceil_div_bounds(layout.dims_spec()[i], layout.brick_dims_spec()[i]);
    }
}

/// Brick coordinates and linear brick indices are in bijection over the valid
/// brick-coordinate space: delinearizing a valid brick coordinate's linear
/// index recovers the coordinate, and every index below the total brick count
/// names exactly one valid coordinate.
pub proof fn lemma_brick_coord_index_bijection(layout: VolumeDataLayout, c: Seq<int>, idx: int)
    requires
        layout.wf(),
        in_box(c, layout.counts_spec()),
        0 <= idx < seq_product(layout.counts_spec()),
    ensures
        delinearize(linearize(c, layout.counts_spec()), layout.counts_spec()) == c,
        in_box(delinearize(idx, layout.counts_spec()), layout.counts_spec()),
        linearize(delinearize(idx, layout.counts_spec()), layout.counts_spec()) == idx,
{
    lemma_wf_counts_positive(layout);
    lemma_delinearize_linearize(c, layout.counts_spec());
    lemma_linearize_delinearize(idx, layout.counts_spec());
}

/// The voxel range of the last brick along each dimension ends exactly at the
/// axis's sample count, never beyond it; this holds whether or not the sample
/// count is divisible by the brick extent.
pub proof fn lemma_last_brick_range_ends_at_volume(layout: VolumeDataLayout, c: Seq<int>, i: int)
    requires
        layout.wf(),
        in_box(c, layout.counts_spec()),
        0 <= i < layout.dimensionality,
        c[i] == layout.counts_spec()[i] - 1,
    ensures
        layout.brick_range_end_spec(c, i) == layout.dims_spec()[i],
        layout.brick_range_start_spec(c, i) < layout.dims_spec()[i],
{
    let n = layout.dims_spec()[i];
    let b = layout.brick_dims_spec()[i];
    let q = ceil_div(n, b);
    lemma_ceil_div_bounds(n, b);
    assert(c[i] * b == (q - 1) * b);
    assert((q - 1) * b + b == q * b) by (nonlinear_arith);
}

} // verus!
