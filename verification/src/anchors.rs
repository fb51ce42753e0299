//! Anchor grids for single-shot face detectors.
//!
//! A detector scores one anchor per grid cell and size. The grid for a level
//! with stride `step` over an input of `img_w x img_h` has `img_w / step`
//! columns and `img_h / step` rows; anchors are listed level by level, rows
//! outermost, then columns, then the level's sizes. The anchor at `(col, row)`
//! is centred at `((col + 1/2) * step, (row + 1/2) * step)` in input pixels.

use vstd::prelude::*;

verus! {

/// Anchor generation parameters: per level, the stride and the anchor sizes.
///
/// Levels pair `steps[k]` with `min_sizes[k]`; extra entries of the longer
/// list are ignored.
pub struct AnchorParams {
    pub min_sizes: Vec<Vec<usize>>,
    pub steps: Vec<usize>,
}

/// One anchor: its cell on the grid of its level, the level's stride, and its size.
///
/// Its centre, normalized by the input size, is
/// `((col + 0.5) * step / img_w, (row + 0.5) * step / img_h)`, and its
/// normalized extent is `(min_size / img_w, min_size / img_h)`.
#[derive(Debug, Clone, Copy, PartialEq, Eq, Structural)]
pub struct Anchor {
    pub col: usize,
    pub row: usize,
    pub step: usize,
    pub min_size: usize,
}

impl AnchorParams {
    /// The anchor sizes of each level, as sequences.
    pub open spec fn sizes(&self) -> Seq<Seq<usize>> {
        self.min_sizes@.map_values(|v: Vec<usize>| v@)
    }

    /// Number of levels used: the shorter of the two lists.
    pub open spec fn levels(&self) -> nat {
        if self.steps@.len() <= self.min_sizes@.len() {
            self.steps@.len()
        } else {
            self.min_sizes@.len()
        }
    }

    /// Every stride used is positive.
    pub open spec fn valid(&self) -> bool {
        forall|k: int| 0 <= k < self.levels() ==> #[trigger] self.steps@[k] > 0
    }
}

/// The anchors of one cell, one per size.
pub open spec fn cell_anchors(col: int, row: int, step: usize, sizes: Seq<usize>) -> Seq<Anchor> {
    sizes.map_values(|s: usize| Anchor { col: col as usize, row: row as usize, step, min_size: s })
}

/// The anchors of the first `ncols` cells of a row.
pub open spec fn row_anchors(row: int, ncols: nat, step: usize, sizes: Seq<usize>) -> Seq<Anchor>
    decreases ncols,
{
    if ncols == 0 {
        Seq::empty()
    } else {
        row_anchors(row, (ncols - 1) as nat, step, sizes) + cell_anchors(
            ncols - 1,
            row,
            step,
            sizes,
        )
    }
}

/// The anchors of the first `nrows` rows of a grid with `ncols` columns.
pub open spec fn grid_anchors(nrows: nat, ncols: nat, step: usize, sizes: Seq<usize>) -> Seq<Anchor>
    decreases nrows,
{
    if nrows == 0 {
        Seq::empty()
    } else {
        grid_anchors((nrows - 1) as nat, ncols, step, sizes) + row_anchors(
            nrows - 1,
            ncols,
            step,
            sizes,
        )
    }
}

/// The anchors of level `k`, whose stride is `steps[k]` and sizes `sizes[k]`.
pub open spec fn level_anchors(
    steps: Seq<usize>,
    sizes: Seq<Seq<usize>>,
    k: int,
    img_w: nat,
    img_h: nat,
) -> Seq<Anchor> {
    let step = steps[k];
    grid_anchors(img_h / (step as nat), img_w / (step as nat), step, sizes[k])
}

/// The anchors of the first `k` levels.
pub open spec fn levels_anchors(
    steps: Seq<usize>,
    sizes: Seq<Seq<usize>>,
    k: nat,
    img_w: nat,
    img_h: nat,
) -> Seq<Anchor>
    decreases k,
{
    if k == 0 {
        Seq::empty()
    } else {
        levels_anchors(steps, sizes, (k - 1) as nat, img_w, img_h) + level_anchors(
            steps,
            sizes,
            k - 1,
            img_w,
            img_h,
        )
    }
}

/// All anchors for an input of `img_w x img_h`.
pub open spec fn spec_anchors(p: AnchorParams, img_w: nat, img_h: nat) -> Seq<Anchor> {
    levels_anchors(p.steps@, p.sizes(), p.levels(), img_w, img_h)
}

/// Generate anchors for a given image size.
///
/// `image_size` is `(width, height)` of the input tensor spatial dimensions.
pub fn generate_anchors(params: &AnchorParams, image_size: (usize, usize)) -> (anchors: Vec<Anchor>)
    requires
        params.valid(),
    ensures
        anchors@ == spec_anchors(*params, image_size.0 as nat, image_size.1 as nat),
{
    let (img_w, img_h) = image_size;
    let nlevels = if params.steps.len() <= params.min_sizes.len() {
        params.steps.len()
    } else {
        params.min_sizes.len()
    };
    let ghost p = *params;
    let mut anchors: Vec<Anchor> = Vec::new();
    let mut k: usize = 0;
    while k < nlevels
        invariant
            p == *params,
            params.valid(),
            nlevels == params.levels(),
            k <= nlevels,
            anchors@ == levels_anchors(p.steps@, p.sizes(), k as nat, img_w as nat, img_h as nat),
        decreases nlevels - k,
    {
        let step = params.steps[k];
        let sizes = &params.min_sizes[k];
        proof {
            assert(p.sizes()[k as int] == sizes@);
            assert(step > 0);
        }
        let fm_w = img_w / step;
        let fm_h = img_h / step;
        let ghost base = anchors@;
        let mut row: usize = 0;
        while row < fm_h
            invariant
                row <= fm_h,
                anchors@ == base + grid_anchors(row as nat, fm_w as nat, step, sizes@),
            decreases fm_h - row,
        {
            let ghost row_base = anchors@;
            let mut col: usize = 0;
            while col < fm_w
                invariant
                    col <= fm_w,
                    row < fm_h,
                    anchors@ == row_base + row_anchors(row as int, col as nat, step, sizes@),
                decreases fm_w - col,
            {
                let ghost cell_base = anchors@;
                let mut s: usize = 0;
                while s < sizes.len()
                    invariant
                        s <= sizes@.len(),
                        anchors@ == cell_base + cell_anchors(
                            col as int,
                            row as int,
                            step,
                            sizes@.take(s as int),
                        ),
                    decreases sizes@.len() - s,
                {
                    anchors.push(Anchor { col, row, step, min_size: sizes[s] });
                    proof {
                        assert(sizes@.take(s + 1) == sizes@.take(s as int).push(sizes@[s as int]));
                        assert(cell_anchors(col as int, row as int, step, sizes@.take(s + 1))
                            =~= cell_anchors(col as int, row as int, step, sizes@.take(s as int)).push(
                            Anchor { col, row, step, min_size: sizes@[s as int] },
                        ));
                    }
                    s = s + 1;
                }
                proof {
                    assert(sizes@.take(sizes@.len() as int) =~= sizes@);
                    assert(row_anchors(row as int, (col + 1) as nat, step, sizes@) == row_anchors(
                        row as int,
                        col as nat,
                        step,
                        sizes@,
                    ) + cell_anchors(col as int, row as int, step, sizes@));
                }
                col = col + 1;
            }
            proof {
                assert(grid_anchors((row + 1) as nat, fm_w as nat, step, sizes@) == grid_anchors(
                    row as nat,
                    fm_w as nat,
                    step,
                    sizes@,
                ) + row_anchors(row as int, fm_w as nat, step, sizes@));
            }
            row = row + 1;
        }
        proof {
            assert(level_anchors(p.steps@, p.sizes(), k as int, img_w as nat, img_h as nat)
                == grid_anchors(
                fm_h as nat,
                fm_w as nat,
                step,
                sizes@,
            ));
            assert(levels_anchors(p.steps@, p.sizes(), (k + 1) as nat, img_w as nat, img_h as nat)
                == levels_anchors(p.steps@, p.sizes(), k as nat, img_w as nat, img_h as nat)
                + level_anchors(p.steps@, p.sizes(), k as int, img_w as nat, img_h as nat));
        }
        k = k + 1;
    }
    anchors
}


/// Number of anchors in the first `k` levels:
/// the sum of `(img_h / step) * (img_w / step) * sizes` over those levels.
pub open spec fn anchor_count(
    steps: Seq<usize>,
    sizes: Seq<Seq<usize>>,
    k: nat,
    img_w: nat,
    img_h: nat,
) -> nat
    decreases k,
{
    if k == 0 {
        0
    } else {
        let step = steps[k - 1] as nat;
        anchor_count(steps, sizes, (k - 1) as nat, img_w, img_h) + (img_h / step) * (img_w / step)
            * sizes[k - 1].len()
    }
}

proof fn lemma_row_len(row: int, ncols: nat, step: usize, sizes: Seq<usize>)
    ensures
        row_anchors(row, ncols, step, sizes).len() == ncols * sizes.len(),
    decreases ncols,
{
    if ncols > 0 {
        lemma_row_len(row, (ncols - 1) as nat, step, sizes);
        let m = sizes.len() as int;
        let k = ncols as int;
        assert(k * m == (k - 1) * m + m) by (nonlinear_arith);
        assert(cell_anchors(ncols - 1, row, step, sizes).len() == m);
        assert(row_anchors(row, (ncols - 1) as nat, step, sizes).len() == (k - 1) * m);
        assert(row_anchors(row, ncols, step, sizes).len() == (k - 1) * m + m);
    } else {
        assert(ncols * sizes.len() == 0) by (nonlinear_arith)
            requires
                ncols == 0,
        ;
    }
}

proof fn lemma_grid_len(nrows: nat, ncols: nat, step: usize, sizes: Seq<usize>)
    ensures
        grid_anchors(nrows, ncols, step, sizes).len() == nrows * ncols * sizes.len(),
    decreases nrows,
{
    if nrows > 0 {
        lemma_grid_len((nrows - 1) as nat, ncols, step, sizes);
        lemma_row_len(nrows - 1, ncols, step, sizes);
        let m = sizes.len() as int;
        let k = nrows as int;
        let n = ncols as int;
        assert(k * n * m == (k - 1) * n * m + n * m) by (nonlinear_arith);
        assert(grid_anchors((nrows - 1) as nat, ncols, step, sizes).len() == (k - 1) * n * m);
        assert(row_anchors(nrows - 1, ncols, step, sizes).len() == n * m);
        assert(grid_anchors(nrows, ncols, step, sizes).len() == (k - 1) * n * m + n * m);
    } else {
        assert(nrows * ncols * sizes.len() == 0) by (nonlinear_arith)
            requires
                nrows == 0,
        ;
    }
}

/// The number of anchors generated is the sum over levels of
/// `(img_h / step) * (img_w / step) * number of sizes`.
pub proof fn lemma_anchor_count(p: AnchorParams, img_w: nat, img_h: nat)
    requires
        p.valid(),
    ensures
        spec_anchors(p, img_w, img_h).len() == anchor_count(
            p.steps@,
            p.sizes(),
            p.levels(),
            img_w,
            img_h,
        ),
{
    lemma_levels_len(p.steps@, p.sizes(), p.levels(), img_w, img_h);
}

proof fn lemma_levels_len(steps: Seq<usize>, sizes: Seq<Seq<usize>>, k: nat, img_w: nat, img_h: nat)
    ensures
        levels_anchors(steps, sizes, k, img_w, img_h).len() == anchor_count(
            steps,
            sizes,
            k,
            img_w,
            img_h,
        ),
    decreases k,
{
    if k > 0 {
        lemma_levels_len(steps, sizes, (k - 1) as nat, img_w, img_h);
        let step = steps[k - 1];
        lemma_grid_len(img_h / (step as nat), img_w / (step as nat), step, sizes[k - 1]);
    }
}

proof fn lemma_row_index(row: int, ncols: nat, step: usize, sizes: Seq<usize>, c: int, s: int)
    requires
        0 <= c < ncols,
        0 <= s < sizes.len(),
    ensures
        c * sizes.len() + s < row_anchors(row, ncols, step, sizes).len(),
        row_anchors(row, ncols, step, sizes)[c * sizes.len() + s] == (Anchor {
            col: c as usize,
            row: row as usize,
            step,
            min_size: sizes[s],
        }),
    decreases ncols,
{
    let m = sizes.len() as int;
    lemma_row_len(row, ncols, step, sizes);
    lemma_row_len(row, (ncols - 1) as nat, step, sizes);
    if c < ncols - 1 {
        lemma_row_index(row, (ncols - 1) as nat, step, sizes, c, s);
    } else {
        assert((ncols - 1) * m == c * m);
    }
    assert(c * m + s < ncols * m) by (nonlinear_arith)
        requires
            0 <= c < ncols,
            0 <= s < m,
    ;
}

/// Anchors are ordered rows first, then columns, then sizes: within a level of
/// `nrows x ncols` cells and `m` sizes, position `(r * ncols + c) * m + s` holds
/// the anchor of cell `(c, r)` with size `sizes[s]`.
pub proof fn lemma_grid_index(
    nrows: nat,
    ncols: nat,
    step: usize,
    sizes: Seq<usize>,
    r: int,
    c: int,
    s: int,
)
    requires
        0 <= r < nrows,
        0 <= c < ncols,
        0 <= s < sizes.len(),
    ensures
        (r * ncols + c) * sizes.len() + s < grid_anchors(nrows, ncols, step, sizes).len(),
        grid_anchors(nrows, ncols, step, sizes)[(r * ncols + c) * sizes.len() + s] == (Anchor {
            col: c as usize,
            row: r as usize,
            step,
            min_size: sizes[s],
        }),
    decreases nrows,
{
    let m = sizes.len() as int;
    let n = ncols as int;
    lemma_grid_len(nrows, ncols, step, sizes);
    lemma_grid_len((nrows - 1) as nat, ncols, step, sizes);
    lemma_row_len(r, ncols, step, sizes);
    let idx = (r * n + c) * m + s;
    assert(idx == r * n * m + (c * m + s)) by (nonlinear_arith)
        requires
            idx == (r * n + c) * m + s,
    ;
    assert(c * m + s < n * m) by (nonlinear_arith)
        requires
            0 <= c < n,
            0 <= s < m,
    ;
    assert(idx < nrows * n * m) by (nonlinear_arith)
        requires
            idx == r * n * m + (c * m + s),
            c * m + s < n * m,
            0 <= r < nrows,
            0 <= n,
            0 <= m,
    ;
    if r < nrows - 1 {
        lemma_grid_index((nrows - 1) as nat, ncols, step, sizes, r, c, s);
    } else {
        lemma_row_index(r, ncols, step, sizes, c, s);
        assert((nrows - 1) * ncols * m == r * n * m);
    }
}

/// Anchor parameters of the 320x320 BlazeFace variant: strides 8 and 16 with
/// sizes `[8, 11]` and `[14, 19, 26, 38, 64, 149]`.
pub fn blazeface_anchor_params() -> (p: AnchorParams)
    ensures
        p.steps@ == seq![8usize, 16],
        p.sizes() == seq![seq![8usize, 11], seq![14usize, 19, 26, 38, 64, 149]],
        p.valid(),
{
    let p = AnchorParams {
        min_sizes: vec![vec![8, 11], vec![14, 19, 26, 38, 64, 149]],
        steps: vec![8, 16],
    };
    proof {
        assert(p.steps@ =~= seq![8usize, 16]);
        assert(p.min_sizes@[0]@ =~= seq![8usize, 11]);
        assert(p.min_sizes@[1]@ =~= seq![14usize, 19, 26, 38, 64, 149]);
        assert(p.sizes() =~= seq![seq![8usize, 11], seq![14usize, 19, 26, 38, 64, 149]]);
    }
    p
}

/// Anchor sizes for a MediaPipe-style grid: two anchors of unit size per cell
/// on every level.
pub open spec fn unit_pair_sizes(levels: nat) -> Seq<Seq<usize>> {
    Seq::new(levels, |k: int| seq![1usize, 1])
}

/// MediaPipe-style anchors for a square `input_size` input: for each stride,
/// every cell of the `input_size / stride` grid carries two anchors of unit
/// size at its centre `((col + 0.5) * stride, (row + 0.5) * stride)`.
pub fn generate_mediapipe_anchors(input_size: usize, strides: &Vec<usize>) -> (anchors: Vec<Anchor>)
    requires
        forall|k: int| 0 <= k < strides@.len() ==> #[trigger] strides@[k] > 0,
    ensures
        anchors@ == levels_anchors(
            strides@,
            unit_pair_sizes(strides@.len()),
            strides@.len(),
            input_size as nat,
            input_size as nat,
        ),
{
    let mut min_sizes: Vec<Vec<usize>> = Vec::new();
    let mut steps: Vec<usize> = Vec::new();
    let mut k: usize = 0;
    while k < strides.len()
        invariant
            k <= strides@.len(),
            steps@ == strides@.take(k as int),
            min_sizes@.len() == k,
            forall|i: int| 0 <= i < k ==> (#[trigger] min_sizes@[i])@ == seq![1usize, 1],
        decreases strides@.len() - k,
    {
        steps.push(strides[k]);
        min_sizes.push(vec![1, 1]);
        proof {
            assert(strides@.take(k + 1) == strides@.take(k as int).push(strides@[k as int]));
            assert(min_sizes@[k as int]@ =~= seq![1usize, 1]);
        }
        k = k + 1;
    }
    let params = AnchorParams { min_sizes, steps };
    proof {
        assert(params.steps@ =~= strides@);
        assert(params.sizes() =~= unit_pair_sizes(strides@.len()));
        assert(params.levels() == strides@.len());
    }
    generate_anchors(&params, (input_size, input_size))
}

} // verus!
