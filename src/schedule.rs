use vstd::prelude::*;

verus! {

/// A band of frame rows `[start_row, end_row)`.
#[derive(Clone, Copy, Debug, PartialEq, Eq, Structural)]
pub struct RowRange {
    pub start_row: usize,
    pub end_row: usize,
}

/// First row of band `i` when `height` rows are split into `n` bands.
pub open spec fn band_start(height: nat, n: nat, i: nat) -> nat {
    i * (height / n)
}

/// End row (exclusive) of band `i`: the last band takes the remainder rows.
pub open spec fn band_end(height: nat, n: nat, i: nat) -> nat {
    if i + 1 == n {
        height
    } else {
        (i + 1) * (height / n)
    }
}

pub(crate) proof fn lemma_band_start_bounded(height: nat, n: nat, i: nat)
    requires
        n >= 1,
        i <= n,
    ensures
        band_start(height, n, i) <= height,
{
    let q = height / n;
    assert(q * n <= height) by (nonlinear_arith)
        requires
            q == height / n,
            n >= 1,
    ;
    assert(i * q <= n * q) by (nonlinear_arith)
        requires
            i <= n,
    ;
}

proof fn lemma_band_start_monotone(height: nat, n: nat, i: nat, j: nat)
    requires
        n >= 1,
        i <= j,
    ensures
        band_start(height, n, i) <= band_start(height, n, j),
{
    let q = height / n;
    assert(i * q <= j * q) by (nonlinear_arith)
        requires
            i <= j,
    ;
}

/// Whether `row` lies in band `i` of the split of `height` rows into `n` bands.
pub open spec fn in_band(height: nat, n: nat, i: nat, row: nat) -> bool {
    i < n && band_start(height, n, i) <= row && row < band_end(height, n, i)
}

/// The band that holds `row`.
pub open spec fn band_of_row(height: nat, n: nat, row: nat) -> nat {
    let q = height / n;
    if q == 0 || row / q + 1 >= n {
        (n - 1) as nat
    } else {
        row / q
    }
}

/// Splitting `height` rows into `n >= 1` bands: the bands are ordered, the first
/// starts at row 0, each ends where the next starts, the last ends at `height`,
/// and every row lies in exactly one band.
pub proof fn lemma_bands_cover_rows(height: nat, n: nat)
    requires
        n >= 1,
    ensures
        band_start(height, n, 0) == 0,
        band_end(height, n, (n - 1) as nat) == height,
        forall|i: nat|
            i + 1 < n ==> #[trigger] band_end(height, n, i) == band_start(height, n, i + 1),
        forall|i: nat| i < n ==> band_start(height, n, i) <= #[trigger] band_end(height, n, i),
        forall|row: nat|
            row < height ==> in_band(height, n, #[trigger] band_of_row(height, n, row), row),
        forall|row: nat, i: nat, j: nat|
            #[trigger] in_band(height, n, i, row) && #[trigger] in_band(height, n, j, row)
                ==> i == j,
{
    let q = height / n;
    assert(band_start(height, n, 0) == 0);
    assert forall|i: nat| i < n implies band_start(height, n, i) <= #[trigger] band_end(
        height,
        n,
        i,
    ) by {
        lemma_band_start_bounded(height, n, i);
        lemma_band_start_monotone(height, n, i, i + 1);
    }
    assert forall|row: nat| row < height implies in_band(
        height,
        n,
        #[trigger] band_of_row(height, n, row),
        row,
    ) by {
        let i = band_of_row(height, n, row);
        if q == 0 {
            assert(band_start(height, n, i) == 0) by (nonlinear_arith)
                requires
                    q == 0,
                    band_start(height, n, i) == i * q,
            ;
            assert(band_end(height, n, i) == height);
        } else {
            let k = row / q;
            if k + 1 >= n {
                assert(i * q <= row) by (nonlinear_arith)
                    requires
                        k == row / q,
                        q > 0,
                        i <= k,
                ;
                assert(band_start(height, n, i) <= row);
                assert(band_end(height, n, i) == height);
            } else {
                assert(i * q <= row && row < (i + 1) * q) by (nonlinear_arith)
                    requires
                        i == row / q,
                        q > 0,
                ;
                assert(band_start(height, n, i) <= row);
                assert(row < band_end(height, n, i));
            }
        }
    }
    assert forall|row: nat, i: nat, j: nat|
        #[trigger] in_band(height, n, i, row) && #[trigger] in_band(height, n, j, row)
        implies i == j by {
        if i < j {
            lemma_band_start_monotone(height, n, i + 1, j);
        } else if j < i {
            lemma_band_start_monotone(height, n, j + 1, i);
        }
    }
}

pub(crate) proof fn lemma_band_end_bounded(height: nat, n: nat, i: nat)
    requires
        n >= 1,
        i < n,
    ensures
        band_start(height, n, i) <= band_end(height, n, i) <= height,
{
    lemma_bands_cover_rows(height, n);
    if i + 1 < n {
        assert(band_end(height, n, i) == band_start(height, n, i + 1));
        lemma_band_start_bounded(height, n, i + 1);
    }
}

/// Splits the rows `[0, height)` into `concurrency` contiguous bands of
/// `height / concurrency` rows each, the last band also taking the remainder.
/// When `height < concurrency` the leading bands are empty.
pub fn partition_rows(height: usize, concurrency: usize) -> (r: Vec<RowRange>)
    requires
        concurrency >= 1,
    ensures
        r.len() == concurrency,
        forall|i: int|
            0 <= i < r.len() ==> (#[trigger] r[i]).start_row == band_start(
                height as nat,
                concurrency as nat,
                i as nat,
            ) && r[i].end_row == band_end(height as nat, concurrency as nat, i as nat),
{
    let chunk = height / concurrency;
    let mut r: Vec<RowRange> = Vec::new();
    let mut i: usize = 0;
    while i < concurrency
        invariant
            i <= concurrency,
            chunk == height / concurrency,
            concurrency >= 1,
            r.len() == i,
            forall|k: int|
                0 <= k < r.len() ==> (#[trigger] r[k]).start_row == band_start(
                    height as nat,
                    concurrency as nat,
                    k as nat,
                ) && r[k].end_row == band_end(height as nat, concurrency as nat, k as nat),
        decreases concurrency - i,
    {
        proof {
            lemma_band_start_bounded(height as nat, concurrency as nat, i as nat);
            lemma_band_start_bounded(height as nat, concurrency as nat, (i + 1) as nat);
        }
        let start_row = i * chunk;
        let end_row = if i + 1 == concurrency {
            height
        } else {
            (i + 1) * chunk
        };
        r.push(RowRange { start_row, end_row });
        i = i + 1;
    }
    r
}

} // verus!
