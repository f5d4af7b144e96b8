use vstd::prelude::*;

use crate::image_config::ImageConfig;
use crate::progress_listener::ProgressListener;

verus! {

/// Number of `true` entries of `s`.
pub open spec fn count_true(s: Seq<bool>) -> nat
    decreases s.len(),
{
    if s.len() == 0 {
        0
    } else {
        count_true(s.drop_last()) + if s.last() {
            1nat
        } else {
            0nat
        }
    }
}

proof fn lemma_count_true_bound(s: Seq<bool>)
    ensures
        count_true(s) <= s.len(),
        count_true(s) == s.len() <==> forall|i: int| 0 <= i < s.len() ==> #[trigger] s[i],
    decreases s.len(),
{
    if s.len() > 0 {
        let t = s.drop_last();
        lemma_count_true_bound(t);
        if forall|i: int| 0 <= i < s.len() ==> #[trigger] s[i] {
            assert forall|i: int| 0 <= i < t.len() implies #[trigger] t[i] by {
                assert(s[i]);
            }
        }
        if count_true(s) == s.len() {
            assert forall|i: int| 0 <= i < s.len() implies #[trigger] s[i] by {
                if i < t.len() {
                    assert(t[i]);
                }
            }
        }
    }
}

proof fn lemma_count_true_set(s: Seq<bool>, j: int)
    requires
        0 <= j < s.len(),
        !s[j],
    ensures
        count_true(s.update(j, true)) == count_true(s) + 1,
    decreases s.len(),
{
    let u = s.update(j, true);
    if j == s.len() - 1 {
        assert(u.drop_last() =~= s.drop_last());
    } else {
        assert(u.drop_last() =~= s.drop_last().update(j, true));
        lemma_count_true_set(s.drop_last(), j);
    }
}

/// Relies on num_cpus::get, which returns the number of logical CPUs this process may use
/// and is documented to return at least 1.
#[verifier::external_body]
fn available_cpus() -> (r: usize)
    ensures
        r >= 1,
{
    num_cpus::get()
}

/// How a render is spread over a pool of workers: one task per scanline, the pool
/// sized to the parallelism the machine offers.
pub struct RenderPlan {
    /// Number of worker threads, at least one.
    pub workers: usize,
    /// The scanlines to compute, one task each, bottom row first.
    pub scanlines: Vec<u32>,
}

impl RenderPlan {
    /// The plan for rendering an image of `config`: every scanline `0 .. height` once,
    /// in order, on as many workers as there are usable CPUs.
    pub fn new(config: &ImageConfig) -> (r: RenderPlan)
        ensures
            r.workers >= 1,
            r.scanlines@ == Seq::new(config.height as nat, |j: int| j as u32),
    {
        let workers = available_cpus();
        let mut scanlines: Vec<u32> = Vec::new();
        let mut j: u32 = 0;
        while j < config.height
            invariant
                j <= config.height,
                scanlines@ == Seq::new(j as nat, |k: int| k as u32),
            decreases config.height - j,
        {
            scanlines.push(j);
            j = j + 1;
            assert(scanlines@ =~= Seq::new(j as nat, |k: int| k as u32));
        }
        RenderPlan { workers, scanlines }
    }
}

/// Scanline `j` of the row-major pixels `p` of an image `w` pixels wide.
pub open spec fn row_of<P>(p: Seq<P>, w: nat, j: nat) -> Seq<P> {
    p.subrange((j * w) as int, (j * w + w) as int)
}

/// Committing a scanline fills exactly that scanline: afterwards scanline `j` holds the
/// committed pixels, every other scanline `k` holds what it held before, and the buffer
/// keeps its `width * height` length. So once each scanline has been committed, every
/// pixel of the finished image is one that a worker computed for it.
pub proof fn lemma_commit_fills_its_row<P>(p: Seq<P>, w: nat, h: nat, j: nat, row: Seq<P>, k: nat)
    requires
        p.len() == w * h,
        j < h,
        k < h,
        row.len() == w,
    ensures
        p.update_subrange_with((j * w) as int, row).len() == w * h,
        row_of(p.update_subrange_with((j * w) as int, row), w, j) == row,
        k != j ==> row_of(p.update_subrange_with((j * w) as int, row), w, k) == row_of(p, w, k),
{
    let q = p.update_subrange_with((j * w) as int, row);
    assert(j * w + w <= h * w) by (nonlinear_arith)
        requires
            j < h,
    ;
    assert(k * w + w <= h * w) by (nonlinear_arith)
        requires
            k < h,
    ;
    assert(h * w == w * h) by (nonlinear_arith);
    assert(row_of(q, w, j) =~= row);
    if k != j {
        if k < j {
            assert(k * w + w <= j * w) by (nonlinear_arith)
                requires
                    k < j,
            ;
        } else {
            assert(j * w + w <= k * w) by (nonlinear_arith)
                requires
                    j < k,
            ;
        }
        assert(row_of(q, w, k) =~= row_of(p, w, k));
    }
}

/// Why a computed scanline was not taken into the frame buffer.
#[derive(Debug, Clone, Copy, PartialEq, Eq, Structural)]
pub enum CommitError {
    /// The row index is not below the image height.
    RowOutOfRange,
    /// The row does not hold exactly `width` pixels.
    WrongRowLength,
    /// The row was already committed; each scanline is computed once.
    RowAlreadyCommitted,
}

/// The pixel buffer of a render in progress, flat and row-major: pixel `(i, j)` of
/// column `i` and scanline `j` sits at index `j * width + i`.
///
/// Workers compute whole scanlines on their own and commit each one here once; the
/// buffer keeps track of which scanlines have arrived and hands the pixels out only
/// when every one of them has.
pub struct FrameBuffer<P> {
    width: u32,
    height: u32,
    pixels: Vec<P>,
    filled: Vec<bool>,
    rows_done: usize,
    committed: Ghost<Map<nat, Seq<P>>>,
}

impl<P: Copy> FrameBuffer<P> {
    pub closed spec fn spec_width(&self) -> nat {
        self.width as nat
    }

    pub closed spec fn spec_height(&self) -> nat {
        self.height as nat
    }

    /// The pixels, row-major.
    pub closed spec fn pixels(&self) -> Seq<P> {
        self.pixels@
    }

    /// Which scanlines have been committed.
    pub closed spec fn filled(&self) -> Seq<bool> {
        self.filled@
    }

    /// The scanlines committed so far, by row index, as the workers handed them in.
    pub closed spec fn rows(&self) -> Map<nat, Seq<P>> {
        self.committed@
    }

    pub closed spec fn wf(&self) -> bool {
        &&& self.pixels@.len() == self.width * self.height
        &&& self.filled@.len() == self.height
        &&& self.rows_done == count_true(self.filled@)
        &&& forall|j: nat| #[trigger]
            self.committed@.contains_key(j) <==> (j < self.height && self.filled@[j as int])
        &&& forall|j: nat| #[trigger]
            self.committed@.contains_key(j) ==> self.committed@[j].len() == self.width
                && row_of(self.pixels@, self.width as nat, j) == self.committed@[j]
    }

    /// Number of committed scanlines.
    pub open spec fn spec_rows_done(&self) -> nat {
        count_true(self.filled())
    }

    /// Every scanline has been committed.
    pub open spec fn complete(&self) -> bool {
        forall|j: int| 0 <= j < self.spec_height() ==> #[trigger] self.filled()[j]
    }

    /// An empty buffer for `config`, every pixel set to `blank` and no scanline committed.
    pub fn new(config: &ImageConfig, blank: P) -> (r: Self)
        requires
            config.spec_pixel_count() <= usize::MAX,
        ensures
            r.wf(),
            r.spec_width() == config.width,
            r.spec_height() == config.height,
            r.pixels() == Seq::new(config.spec_pixel_count(), |k: int| blank),
            r.filled() == Seq::new(config.height as nat, |j: int| false),
            r.rows() == Map::<nat, Seq<P>>::empty(),
            r.spec_rows_done() == 0,
    {
        let n = config.pixel_count();
        let mut pixels: Vec<P> = Vec::new();
        let mut k: usize = 0;
        while k < n
            invariant
                k <= n,
                pixels@ == Seq::new(k as nat, |i: int| blank),
            decreases n - k,
        {
            pixels.push(blank);
            k = k + 1;
            assert(pixels@ =~= Seq::new(k as nat, |i: int| blank));
        }
        let mut filled: Vec<bool> = Vec::new();
        let mut j: u32 = 0;
        while j < config.height
            invariant
                j <= config.height,
                filled@ == Seq::new(j as nat, |i: int| false),
                count_true(filled@) == 0,
            decreases config.height - j,
        {
            proof {
                assert(filled@.push(false).drop_last() =~= filled@);
            }
            filled.push(false);
            j = j + 1;
            assert(filled@ =~= Seq::new(j as nat, |i: int| false));
        }
        FrameBuffer {
            width: config.width,
            height: config.height,
            pixels,
            filled,
            rows_done: 0,
            committed: Ghost(Map::empty()),
        }
    }

    pub fn width(&self) -> (r: u32)
        ensures
            r == self.spec_width(),
    {
        self.width
    }

    pub fn height(&self) -> (r: u32)
        ensures
            r == self.spec_height(),
    {
        self.height
    }

    /// Number of committed scanlines.
    pub fn rows_done(&self) -> (r: usize)
        requires
            self.wf(),
        ensures
            r == self.spec_rows_done(),
    {
        self.rows_done
    }

    /// Whether scanline `j` has been committed.
    pub fn is_row_committed(&self, j: u32) -> (r: bool)
        requires
            self.wf(),
        ensures
            r == (j < self.spec_height() && self.filled()[j as int]),
    {
        j < self.height && self.filled[j as usize]
    }

    /// Takes the computed scanline `j` into the buffer and reports the new count of
    /// committed scanlines, out of the image height, to `listener`.
    ///
    /// The row is refused, and nothing changes, when `j` is past the last scanline, when
    /// the row does not hold `width` pixels, or when scanline `j` was committed before.
    pub fn commit_row<L: ProgressListener>(&mut self, j: u32, row: &Vec<P>, listener: &mut L) -> (r:
        Result<(), CommitError>)
        requires
            old(self).wf(),
        ensures
            final(self).wf(),
            final(self).spec_width() == old(self).spec_width(),
            final(self).spec_height() == old(self).spec_height(),
            (r == Err::<(), CommitError>(CommitError::RowOutOfRange)) <==> j >= old(
                self,
            ).spec_height(),
            (r == Err::<(), CommitError>(CommitError::WrongRowLength)) <==> (j < old(
                self,
            ).spec_height() && row@.len() != old(self).spec_width()),
            (r == Err::<(), CommitError>(CommitError::RowAlreadyCommitted)) <==> (j < old(
                self,
            ).spec_height() && row@.len() == old(self).spec_width() && old(
                self,
            ).filled()[j as int]),
            r is Ok <==> (j < old(self).spec_height() && row@.len() == old(self).spec_width()
                && !old(self).filled()[j as int]),
            r is Err ==> final(self).pixels() == old(self).pixels() && final(self).filled() == old(
                self,
            ).filled() && final(self).rows() == old(self).rows(),
            r is Ok ==> final(self).filled() == old(self).filled().update(j as int, true)
                && final(self).rows() == old(self).rows().insert(j as nat, row@)
                && final(self).spec_rows_done() == old(self).spec_rows_done() + 1
                && final(self).pixels() == old(self).pixels().update_subrange_with(
                (j * old(self).spec_width()) as int,
                row@,
            ),
    {
        if j >= self.height {
            return Err(CommitError::RowOutOfRange);
        }
        if row.len() != self.width as usize {
            return Err(CommitError::WrongRowLength);
        }
        if self.filled[j as usize] {
            return Err(CommitError::RowAlreadyCommitted);
        }
        let ghost old_pixels = self.pixels@;
        let w = self.width as usize;
        proof {
            assert((j as nat) * (w as nat) + (w as nat) <= (self.height as nat) * (w as nat))
                by (nonlinear_arith)
                requires
                    j < self.height,
            ;
            assert((self.height as nat) * (w as nat) == (self.width as nat) * (self.height as nat))
                by (nonlinear_arith)
                requires
                    w == self.width,
            ;
        }
        let n = self.pixels.len();
        let start = (j as usize) * w;
        let mut i: usize = 0;
        while i < w
            invariant
                old(self).wf(),
                old_pixels == old(self).pixels@,
                j < self.height,
                !old(self).filled@[j as int],
                self.rows_done == old(self).rows_done,
                self.committed == old(self).committed,
                w == self.width,
                row@.len() == w,
                start == j * w,
                start + w <= n,
                n == self.pixels@.len(),
                i <= w,
                self.filled@ == old(self).filled@,
                self.width == old(self).width,
                self.height == old(self).height,
                self.pixels@ == old_pixels.update_subrange_with(
                    start as int,
                    row@.subrange(0, i as int),
                ),
            decreases w - i,
        {
            let px = row[i];
            self.pixels.set(start + i, px);
            i = i + 1;
            assert(self.pixels@ =~= old_pixels.update_subrange_with(
                start as int,
                row@.subrange(0, i as int),
            ));
        }
        assert(row@.subrange(0, w as int) =~= row@);
        let ghost new_rows = self.committed@.insert(j as nat, row@);
        proof {
            assert forall|k: nat| #[trigger] new_rows.contains_key(k) implies new_rows[k].len() == w
                && row_of(self.pixels@, w as nat, k) == new_rows[k] by {
                lemma_commit_fills_its_row(old_pixels, w as nat, self.height as nat, j as nat, row@, k);
            }
            lemma_count_true_set(self.filled@, j as int);
            lemma_count_true_bound(self.filled@.update(j as int, true));
        }
        self.filled.set(j as usize, true);
        self.rows_done = self.rows_done + 1;
        self.committed = Ghost(new_rows);
        listener.update(self.rows_done, self.height as usize);
        Ok(())
    }

    /// The finished image, row-major, once every scanline has been committed; the
    /// buffer itself while some scanline is still missing.
    pub fn finish(self) -> (r: Result<Vec<P>, Self>)
        requires
            self.wf(),
        ensures
            r is Ok <==> self.complete(),
            r matches Ok(v) ==> v@ == self.pixels() && v@.len() == self.spec_width()
                * self.spec_height() && forall|j: nat|
                j < self.spec_height() ==> #[trigger] self.rows().contains_key(j) && row_of(
                v@,
                self.spec_width(),
                j,
            ) == self.rows()[j],
            r matches Err(b) ==> b == self,
    {
        proof {
            lemma_count_true_bound(self.filled@);
            if count_true(self.filled@) == self.filled@.len() {
                assert forall|k: int| 0 <= k < self.spec_height() implies #[trigger] self.filled()[k] by {
                    assert(self.filled@[k]);
                }
            }
            if self.complete() {
                assert forall|k: int| 0 <= k < self.filled@.len() implies #[trigger] self.filled@[k] by {
                    assert(self.filled()[k]);
                }
            }
        }
        if self.rows_done == self.height as usize {
            Ok(self.pixels)
        } else {
            Err(self)
        }
    }
}

} // verus!
