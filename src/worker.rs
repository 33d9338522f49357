use vstd::prelude::*;

use crate::color::{pixel_spec, to_pixel, Rgba};
use crate::schedule::{
    band_end, band_start, lemma_band_end_bounded, lemma_bands_cover_rows, partition_rows, RowRange,
};

verus! {

/// Channel `c` (0 red, 1 green, 2 blue, 3 alpha) of a pixel.
pub open spec fn channel(p: Rgba, c: int) -> u8 {
    if c == 0 {
        p.0
    } else if c == 1 {
        p.1
    } else if c == 2 {
        p.2
    } else {
        p.3
    }
}

/// The RGBA bytes of a row-major grid of iteration counts, four per count.
pub open spec fn colored(iters: Seq<u32>, max_iter: u32) -> Seq<u8> {
    Seq::new(4 * iters.len(), |j: int| channel(pixel_spec(iters[j / 4], max_iter), j % 4))
}

/// The frame built band by band from the first `k` of `n` bands of a
/// `width`-wide grid of `height` rows, each band coloured on its own.
pub open spec fn banded_frame(
    iters: Seq<u32>,
    width: nat,
    height: nat,
    max_iter: u32,
    n: nat,
    k: nat,
) -> Seq<u8>
    decreases k,
{
    if k == 0 {
        Seq::empty()
    } else {
        let i = (k - 1) as nat;
        banded_frame(iters, width, height, max_iter, n, i) + colored(
            iters.subrange(
                (band_start(height, n, i) * width) as int,
                (band_end(height, n, i) * width) as int,
            ),
            max_iter,
        )
    }
}

proof fn lemma_colored_concat(a: Seq<u32>, b: Seq<u32>, max_iter: u32)
    ensures
        colored(a + b, max_iter) == colored(a, max_iter) + colored(b, max_iter),
{
    let l = colored(a + b, max_iter);
    let r = colored(a, max_iter) + colored(b, max_iter);
    assert forall|j: int| 0 <= j < l.len() implies l[j] == r[j] by {
        if j >= 4 * a.len() {
            let k = j - 4 * a.len();
            assert(k / 4 == j / 4 - a.len() && k % 4 == j % 4) by (nonlinear_arith)
                requires
                    k == j - 4 * a.len(),
                    k >= 0,
            ;
        } else {
            assert(j / 4 < a.len()) by (nonlinear_arith)
                requires
                    0 <= j < 4 * a.len(),
            ;
        }
    }
    assert(l =~= r);
}

proof fn lemma_mul_le(a: nat, b: nat, w: nat)
    requires
        a <= b,
    ensures
        a * w <= b * w,
{
    assert(a * w <= b * w) by (nonlinear_arith)
        requires
            a <= b,
    ;
}

proof fn lemma_banded_prefix(
    iters: Seq<u32>,
    width: nat,
    height: nat,
    max_iter: u32,
    n: nat,
    k: nat,
)
    requires
        n >= 1,
        1 <= k <= n,
        iters.len() == width * height,
    ensures
        banded_frame(iters, width, height, max_iter, n, k) == colored(
            iters.subrange(0, (band_end(height, n, (k - 1) as nat) * width) as int),
            max_iter,
        ),
    decreases k,
{
    lemma_bands_cover_rows(height, n);
    let i = (k - 1) as nat;
    let s = band_start(height, n, i) * width;
    let e = band_end(height, n, i) * width;
    lemma_band_end_bounded(height, n, i);
    lemma_mul_le(band_start(height, n, i), band_end(height, n, i), width);
    lemma_mul_le(band_end(height, n, i), height, width);
    assert(height * width == width * height) by (nonlinear_arith);
    if k == 1 {
        assert(s == 0) by (nonlinear_arith)
            requires
                s == band_start(height, n, i) * width,
                band_start(height, n, i) == 0,
        ;
        assert(banded_frame(iters, width, height, max_iter, n, 0) == Seq::<u8>::empty());
        assert(iters.subrange(0, e as int) =~= Seq::<u32>::empty() + iters.subrange(
            s as int,
            e as int,
        ));
        lemma_colored_concat(Seq::<u32>::empty(), iters.subrange(s as int, e as int), max_iter);
        assert(colored(Seq::<u32>::empty(), max_iter) =~= Seq::<u8>::empty());
    } else {
        lemma_banded_prefix(iters, width, height, max_iter, n, i);
        assert(band_end(height, n, (i - 1) as nat) == band_start(height, n, i));
        assert(iters.subrange(0, e as int) =~= iters.subrange(0, s as int) + iters.subrange(
            s as int,
            e as int,
        ));
        lemma_colored_concat(
            iters.subrange(0, s as int),
            iters.subrange(s as int, e as int),
            max_iter,
        );
    }
}

/// Colouring a grid band by band, over any number `n >= 1` of bands, gives
/// the same bytes as colouring it whole.
pub proof fn lemma_banded_frame_is_whole(
    iters: Seq<u32>,
    width: nat,
    height: nat,
    max_iter: u32,
    n: nat,
)
    requires
        n >= 1,
        iters.len() == width * height,
    ensures
        banded_frame(iters, width, height, max_iter, n, n) == colored(iters, max_iter),
{
    lemma_banded_prefix(iters, width, height, max_iter, n, n);
    lemma_bands_cover_rows(height, n);
    assert(iters.subrange(0, (height * width) as int) =~= iters) by {
        assert(height * width == width * height) by (nonlinear_arith);
    }
}

/// A frame rendered in `n1` bands is byte for byte the frame rendered in
/// `n2` bands: the number of parallel bands does not change the result.
pub proof fn lemma_band_count_irrelevant(
    iters: Seq<u32>,
    width: nat,
    height: nat,
    max_iter: u32,
    n1: nat,
    n2: nat,
)
    requires
        n1 >= 1,
        n2 >= 1,
        iters.len() == width * height,
    ensures
        banded_frame(iters, width, height, max_iter, n1, n1) == banded_frame(
            iters,
            width,
            height,
            max_iter,
            n2,
            n2,
        ),
{
    lemma_banded_frame_is_whole(iters, width, height, max_iter, n1);
    lemma_banded_frame_is_whole(iters, width, height, max_iter, n2);
}

/// Colours grids of iteration counts for a fixed iteration cap.
#[derive(Clone, Copy, Debug, PartialEq, Eq, Structural)]
pub struct FractalWorker {
    pub max_iter: u32,
}

impl FractalWorker {
    /// A worker for the iteration cap `max_iter`.
    pub fn new(max_iter: u32) -> (r: FractalWorker)
        ensures
            r.max_iter == max_iter,
    {
        FractalWorker { max_iter }
    }

    /// The RGBA bytes of a band whose iteration counts are `iters`, row-major:
    /// the pixel of count `k` is `to_pixel(iters[k], max_iter)` at bytes `4k..4k+4`.
    pub fn color_chunk(&self, iters: &Vec<u32>) -> (r: Vec<u8>)
        requires
            4 * iters.len() <= usize::MAX,
        ensures
            r@ == colored(iters@, self.max_iter),
    {
        let mut out: Vec<u8> = Vec::new();
        let mut k: usize = 0;
        while k < iters.len()
            invariant
                k <= iters.len(),
                4 * iters.len() <= usize::MAX,
                out@.len() == 4 * k,
                forall|j: int|
                    0 <= j < 4 * k ==> #[trigger] out@[j] == channel(
                        pixel_spec(iters@[j / 4], self.max_iter),
                        j % 4,
                    ),
            decreases iters.len() - k,
        {
            let p = to_pixel(iters[k], self.max_iter);
            out.push(p.0);
            out.push(p.1);
            out.push(p.2);
            out.push(p.3);
            proof {
                assert forall|j: int| 4 * k <= j < 4 * k + 4 implies #[trigger] out@[j] == channel(
                    pixel_spec(iters@[j / 4], self.max_iter),
                    j % 4,
                ) by {
                    assert(j / 4 == k && j % 4 == j - 4 * k) by (nonlinear_arith)
                        requires
                            4 * k <= j < 4 * k + 4,
                    ;
                }
            }
            k = k + 1;
        }
        assert(out@ =~= colored(iters@, self.max_iter));
        out
    }

    /// Renders a `width` x `height` frame from its row-major grid of iteration
    /// counts: the rows are split into `concurrency` bands, each band is
    /// coloured on its own and put in place. The bytes are those of colouring
    /// the whole grid at once, whatever `concurrency` is.
    pub fn render_frame(
        &self,
        width: usize,
        height: usize,
        iters: &Vec<u32>,
        concurrency: usize,
    ) -> (r: Vec<u8>)
        requires
            concurrency >= 1,
            iters.len() == width * height,
            4 * iters.len() <= usize::MAX,
        ensures
            r@ == banded_frame(
                iters@,
                width as nat,
                height as nat,
                self.max_iter,
                concurrency as nat,
                concurrency as nat,
            ),
            r@ == colored(iters@, self.max_iter),
            r@.len() == 4 * width * height,
    {
        let bands = partition_rows(height, concurrency);
        proof {
            lemma_bands_cover_rows(height as nat, concurrency as nat);
            assert(height * width == width * height) by (nonlinear_arith);
        }
        let mut frame: Vec<u8> = Vec::new();
        let mut b: usize = 0;
        while b < bands.len()
            invariant
                bands.len() == concurrency,
                concurrency >= 1,
                b <= concurrency,
                iters.len() == width * height,
                height * width == width * height,
                4 * iters.len() <= usize::MAX,
                forall|i: int|
                    0 <= i < bands.len() ==> (#[trigger] bands[i]).start_row == band_start(
                        height as nat,
                        concurrency as nat,
                        i as nat,
                    ) && bands[i].end_row == band_end(
                        height as nat,
                        concurrency as nat,
                        i as nat,
                    ),
                frame@ == banded_frame(
                    iters@,
                    width as nat,
                    height as nat,
                    self.max_iter,
                    concurrency as nat,
                    b as nat,
                ),
            decreases concurrency - b,
        {
            let band: RowRange = bands[b];
            proof {
                lemma_band_end_bounded(height as nat, concurrency as nat, b as nat);
                lemma_mul_le(band.start_row as nat, band.end_row as nat, width as nat);
                lemma_mul_le(band.end_row as nat, height as nat, width as nat);
            }
            let start = band.start_row * width;
            let end = band.end_row * width;
            let slice = copy_range(iters, start, end);
            let mut chunk = self.color_chunk(&slice);
            frame.append(&mut chunk);
            b = b + 1;
        }
        proof {
            lemma_banded_frame_is_whole(
                iters@,
                width as nat,
                height as nat,
                self.max_iter,
                concurrency as nat,
            );
            assert(4 * width * height == 4 * (width * height)) by (nonlinear_arith);
        }
        frame
    }
}

/// The elements `v[from..to]` as a vector of their own.
fn copy_range(v: &Vec<u32>, from: usize, to: usize) -> (r: Vec<u32>)
    requires
        from <= to <= v.len(),
    ensures
        r@ == v@.subrange(from as int, to as int),
{
    let mut r: Vec<u32> = Vec::new();
    let mut k: usize = from;
    while k < to
        invariant
            from <= k <= to <= v.len(),
            r@ == v@.subrange(from as int, k as int),
        decreases to - k,
    {
        r.push(v[k]);
        k = k + 1;
        assert(r@ =~= v@.subrange(from as int, k as int));
    }
    r
}

} // verus!
