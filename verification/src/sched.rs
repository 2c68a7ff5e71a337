//! Row-task scheduling and the output framebuffer.
//!
//! The image is rendered one row at a time: a queue hands out each row
//! index exactly once to whichever worker asks next (callers guard the
//! queue with a lock of their own), and finished rows are assembled into
//! one contiguous byte buffer, four channel bytes per pixel. Row byte
//! ranges partition that buffer, so no two row writes touch the same byte.

use vstd::arithmetic::div_mod::{lemma_fundamental_div_mod, lemma_mod_bound};
use vstd::pervasive::VecAdditionalExecFns;
use vstd::prelude::*;

verus! {

/// Channel bytes per pixel: red, green, blue, alpha.
pub const BYTES_PER_PIXEL: usize = 4;

/// First byte index of a row's slice of the framebuffer.
pub open spec fn row_start(width: nat, row: nat) -> nat {
    row * width * 4
}

/// Whether byte index `k` belongs to `row`'s slice.
pub open spec fn row_covers(width: nat, row: nat, k: nat) -> bool {
    row_start(width, row) <= k < row_start(width, row + 1)
}

/// Row slices partition the framebuffer: every byte index of a
/// `width * height` image lies in the slice of exactly one row, so giving
/// each row to one worker covers the whole image without any overlap.
pub proof fn lemma_rows_partition(width: nat, height: nat, k: nat)
    requires
        k < height * width * 4,
    ensures
        exists|r: nat| r < height && #[trigger] row_covers(width, r, k),
        forall|r1: nat, r2: nat|
            #[trigger] row_covers(width, r1, k) && #[trigger] row_covers(width, r2, k) ==> r1
                == r2,
{
    assert(width > 0) by (nonlinear_arith)
        requires
            k < height * width * 4,
    ;
    let w4 = (width * 4) as int;
    let q = (k as int) / w4;
    lemma_fundamental_div_mod(k as int, w4);
    lemma_mod_bound(k as int, w4);
    assert(w4 * q <= k < w4 * q + w4);
    assert(q >= 0) by (nonlinear_arith)
        requires
            w4 * q + w4 > k >= 0 && w4 > 0,
    ;
    assert(q < height) by (nonlinear_arith)
        requires
            w4 * q <= k,
            k < height * width * 4,
            w4 == width * 4,
            w4 > 0,
    ;
    assert(row_start(width, q as nat) == w4 * q && row_start(width, (q + 1) as nat) == w4 * q + w4)
        by (nonlinear_arith)
        requires
            w4 == width * 4,
            q >= 0,
    ;
    assert((q as nat) < height && row_covers(width, q as nat, k));
    assert forall|r1: nat, r2: nat|
        #[trigger] row_covers(width, r1, k) && #[trigger] row_covers(width, r2, k) implies r1
        == r2 by {
        assert(r1 == r2) by (nonlinear_arith)
            requires
                r1 * width * 4 <= k < (r1 + 1) * width * 4,
                r2 * width * 4 <= k < (r2 + 1) * width * 4,
                width > 0,
        ;
    }
}

/// Hands out each row index of an image exactly once, lowest first; the
/// callers share it behind a lock and each taken row becomes one worker's
/// task.
pub struct RowQueue {
    next: usize,
    height: usize,
}

impl RowQueue {
    /// The next row to hand out; every smaller row is already taken.
    pub closed spec fn next_row(self) -> nat {
        self.next as nat
    }

    /// One past the last row.
    pub closed spec fn num_rows(self) -> nat {
        self.height as nat
    }

    /// The queue never moves past the end.
    pub open spec fn wf(self) -> bool {
        self.next_row() <= self.num_rows()
    }

    /// A queue holding every row of an image of `height` rows.
    pub fn new(height: usize) -> (q: RowQueue)
        ensures
            q.wf(),
            q.next_row() == 0,
            q.num_rows() == height,
    {
        RowQueue { next: 0, height }
    }

    /// Take the next row-task: each row comes out exactly once, in
    /// increasing order, then the queue only reports empty.
    pub fn pop(&mut self) -> (r: Option<usize>)
        requires
            old(self).wf(),
        ensures
            final(self).wf(),
            final(self).num_rows() == old(self).num_rows(),
            match r {
                Some(row) => old(self).next_row() < old(self).num_rows() && row == old(
                    self,
                ).next_row() && final(self).next_row() == old(self).next_row() + 1,
                None => old(self).next_row() == old(self).num_rows() && final(self).next_row()
                    == old(self).next_row(),
            },
    {
        if self.next < self.height {
            let r = self.next;
            self.next = self.next + 1;
            Some(r)
        } else {
            None
        }
    }
}

/// The assembled output image: `width * height` pixels, four channel
/// bytes each, row-major.
pub struct Framebuffer {
    data: Vec<u8>,
    width: usize,
    height: usize,
}

impl Framebuffer {
    /// The stored channel bytes.
    pub closed spec fn bytes(self) -> Seq<u8> {
        self.data@
    }

    /// Pixels per row.
    pub closed spec fn width_spec(self) -> nat {
        self.width as nat
    }

    /// Number of rows.
    pub closed spec fn height_spec(self) -> nat {
        self.height as nat
    }

    /// Sized for the whole image.
    pub open spec fn wf(self) -> bool {
        self.bytes().len() == self.height_spec() * self.width_spec() * 4
    }

    /// A black, fully transparent framebuffer: all bytes zero.
    pub fn new(width: usize, height: usize) -> (fb: Framebuffer)
        requires
            height * width * 4 <= usize::MAX,
        ensures
            fb.wf(),
            fb.width_spec() == width,
            fb.height_spec() == height,
            fb.bytes() == Seq::new((height * width * 4) as nat, |i: int| 0u8),
    {
        let n = height * width * 4;
        let mut data: Vec<u8> = Vec::new();
        let mut i: usize = 0;
        while i < n
            invariant
                i <= n,
                data@.len() == i,
                forall|j: int| 0 <= j < i ==> data@[j] == 0u8,
            decreases n - i,
        {
            data.push(0u8);
            i = i + 1;
        }
        proof {
            assert(data@ =~= Seq::new((height * width * 4) as nat, |i: int| 0u8));
        }
        Framebuffer { data, width, height }
    }

    /// Pixels per row.
    pub fn width(&self) -> (w: usize)
        ensures
            w == self.width_spec(),
    {
        self.width
    }

    /// Number of rows.
    pub fn height(&self) -> (h: usize)
        ensures
            h == self.height_spec(),
    {
        self.height
    }

    /// Install one finished row: exactly the bytes of that row's slice
    /// change, to the given row bytes.
    pub fn write_row(&mut self, row: usize, row_bytes: &Vec<u8>)
        requires
            old(self).wf(),
            row < old(self).height_spec(),
            row_bytes@.len() == old(self).width_spec() * 4,
        ensures
            final(self).wf(),
            final(self).width_spec() == old(self).width_spec(),
            final(self).height_spec() == old(self).height_spec(),
            final(self).bytes().len() == old(self).bytes().len(),
            forall|k: int|
                0 <= k < old(self).bytes().len() && !row_covers(
                    old(self).width_spec(),
                    row as nat,
                    k as nat,
                ) ==> #[trigger] final(self).bytes()[k] == old(self).bytes()[k],
            forall|j: int|
                0 <= j < row_bytes@.len() ==> #[trigger] final(self).bytes()[row_start(
                    old(self).width_spec(),
                    row as nat,
                ) + j] == row_bytes@[j],
    {
        let total = self.data.len();
        let ghost w = self.width_spec();
        let ghost h = self.height_spec();
        proof {
            assert(w * 4 <= h * w * 4 && (row + 1) * (w * 4) <= h * w * 4 && row * (w * 4)
                == row_start(w, row as nat) && row * (w * 4) + w * 4 == (row + 1) * (w * 4) && (row
                + 1) * (w * 4) == row_start(w, (row + 1) as nat)) by (nonlinear_arith)
                requires
                    row < h,
            ;
            assert(total == h * w * 4);
        }
        let w4 = self.width * 4;
        let start = row * w4;
        proof {
            assert(start + w4 <= total);
        }
        let mut j: usize = 0;
        while j < w4
            invariant
                j <= w4,
                w4 == self.width_spec() * 4,
                start == row_start(self.width_spec(), row as nat),
                start + w4 <= total,
                total == self.bytes().len(),
                row_bytes@.len() == w4,
                self.bytes().len() == old(self).bytes().len(),
                self.width_spec() == old(self).width_spec(),
                self.height_spec() == old(self).height_spec(),
                forall|k: int|
                    0 <= k < old(self).bytes().len() && !(start <= k < start + j)
                        ==> #[trigger] self.bytes()[k] == old(self).bytes()[k],
                forall|jj: int|
                    0 <= jj < j ==> #[trigger] self.bytes()[start + jj] == row_bytes@[jj],
            decreases w4 - j,
        {
            self.data.set(start + j, row_bytes[j]);
            j = j + 1;
        }
        proof {
            assert(forall|k: int|
                0 <= k < old(self).bytes().len() && !row_covers(
                    old(self).width_spec(),
                    row as nat,
                    k as nat,
                ) ==> !(start <= k < start + w4) && #[trigger] self.bytes()[k] == old(
                    self,
                ).bytes()[k]);
        }
    }

    /// Read access to the finished image, for the encoder.
    pub fn as_bytes(&self) -> (r: &Vec<u8>)
        ensures
            r@ == self.bytes(),
    {
        &self.data
    }
}

/// Write the four channel bytes of pixel `x` of a row buffer: the three
/// given channels and an opaque alpha.
pub fn set_color(row: &mut Vec<u8>, x: usize, red: u8, green: u8, blue: u8)
    requires
        4 * x + 4 <= old(row)@.len(),
    ensures
        final(row)@.len() == old(row)@.len(),
        final(row)@[4 * x] == red,
        final(row)@[4 * x + 1] == green,
        final(row)@[4 * x + 2] == blue,
        final(row)@[4 * x + 3] == 255u8,
        forall|k: int|
            0 <= k < old(row)@.len() && !(4 * x <= k < 4 * x + 4) ==> #[trigger] final(row)@[k]
                == old(row)@[k],
{
    let n = row.len();
    proof {
        assert(4 * x + 4 <= n);
    }
    let base = 4 * x;
    row.set(base, red);
    row.set(base + 1, green);
    row.set(base + 2, blue);
    row.set(base + 3, 255);
}

/// Relies on num_cpus::get: the number of available logical CPUs, which
/// its documentation promises to be at least 1.
#[verifier::external_body]
fn available_cpus() -> (n: usize)
    ensures
        1 <= n,
{
    num_cpus::get()
}

/// Default worker-pool size: one worker per available CPU core, and never
/// zero, whatever the machine reports.
pub fn default_worker_count() -> (n: usize)
    ensures
        1 <= n,
{
    available_cpus()
}

} // verus!
