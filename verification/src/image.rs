//! Frames and planes of 8-bit samples.
//!
//! A frame is an `ndarray` array of `height x width x 3` bytes, the three
//! channels of a pixel side by side; a plane is an `ndarray` array of
//! `height x width` bytes, one channel. Verus cannot look inside either
//! array, so a frame is described by [`frame_samples`] and
//! [`frame_width`], a plane by [`plane_samples`] and [`plane_width`], and
//! the functions that touch the arrays are trusted to behave as their
//! contracts say.

use vstd::prelude::*;
use vstd::arithmetic::div_mod::{lemma_div_denominator, lemma_fundamental_div_mod_converse};

verus! {

/// An image of three interleaved channels: R, G, B before color
/// conversion, Y, Cb, Cr after it.
#[verifier::external_body]
pub struct Frame {
    pixels: ndarray::Array3<u8>,
}

/// The samples of a frame, by row, then column, then channel.
pub uninterp spec fn frame_samples(frame: Frame) -> Seq<Seq<Seq<u8>>>;

/// The number of columns that a frame was made with.
pub uninterp spec fn frame_width(frame: Frame) -> nat;

/// One channel of an image.
#[verifier::external_body]
pub struct Plane {
    samples: ndarray::Array2<u8>,
}

/// The samples of a plane, by row, then column.
pub uninterp spec fn plane_samples(plane: Plane) -> Seq<Seq<u8>>;

/// The number of columns that a plane was made with.
pub uninterp spec fn plane_width(plane: Plane) -> nat;

/// The length that an axis counts for when the size of an array is
/// checked: the length itself, and 1 for an empty axis.
pub open spec fn axis_len(n: int) -> int {
    if n == 0 {
        1
    } else {
        n
    }
}

/// An array of `height x width x 3` bytes can be made: the product of its
/// axis lengths, empty axes left out, does not exceed `isize::MAX`.
pub open spec fn frame_fits(height: int, width: int) -> bool {
    axis_len(height) * axis_len(width) * 3 <= isize::MAX
}

/// An array of `height x width` bytes can be made: the product of its axis
/// lengths, empty axes left out, does not exceed `isize::MAX`.
pub open spec fn plane_fits(height: int, width: int) -> bool {
    axis_len(height) * axis_len(width) <= isize::MAX
}

/// Rows of `width` pixels with three channels each.
pub open spec fn is_frame_shape(samples: Seq<Seq<Seq<u8>>>, width: nat) -> bool {
    forall|i: int|
        0 <= i < samples.len() ==> (#[trigger] samples[i]).len() == width && forall|j: int|
            0 <= j < width ==> (#[trigger] samples[i][j]).len() == 3
}

/// Rows of `width` samples.
pub open spec fn is_plane_shape(samples: Seq<Seq<u8>>, width: nat) -> bool {
    forall|i: int| 0 <= i < samples.len() ==> (#[trigger] samples[i]).len() == width
}

/// Trusted: `ndarray::Array3::<u8>::zeros((height, width, 3))`. Every
/// sample of the new array is 0. The call panics when the product of the
/// axis lengths that are not zero exceeds `isize::MAX`, which `requires`
/// excludes.
#[verifier::external_body]
fn pixels_zeros(height: usize, width: usize) -> (frame: Frame)
    requires
        frame_fits(height as int, width as int),
    ensures
        frame_width(frame) == width,
        frame_samples(frame) == Seq::new(
            height as nat,
            |i: int| Seq::new(width as nat, |j: int| Seq::new(3, |c: int| 0u8)),
        ),
{
    Frame { pixels: ndarray::Array3::<u8>::zeros((height, width, 3)) }
}

/// Trusted: `ndarray::ArrayBase::dim` on a three-dimensional array; its
/// first two components are the numbers of rows and of columns.
#[verifier::external_body]
fn pixels_dim(frame: &Frame) -> (dim: (usize, usize))
    ensures
        dim.0 == frame_samples(*frame).len(),
        dim.1 == frame_width(*frame),
{
    let (height, width, _) = frame.pixels.dim();
    (height, width)
}

/// Trusted: indexing `ndarray::Array3` with `[i, j, c]` reads that sample.
/// Indexing panics out of bounds, which `requires` excludes.
#[verifier::external_body]
fn pixels_get(frame: &Frame, i: usize, j: usize, c: usize) -> (v: u8)
    requires
        i < frame_samples(*frame).len(),
        j < frame_samples(*frame)[i as int].len(),
        c < frame_samples(*frame)[i as int][j as int].len(),
    ensures
        v == frame_samples(*frame)[i as int][j as int][c as int],
{
    frame.pixels[[i, j, c]]
}

/// Trusted: assigning through `IndexMut` of `ndarray::Array3` at
/// `[i, j, c]` replaces that one sample; every other sample and the shape
/// stay as they were.
#[verifier::external_body]
fn pixels_set(frame: &mut Frame, i: usize, j: usize, c: usize, v: u8)
    requires
        i < frame_samples(*old(frame)).len(),
        j < frame_samples(*old(frame))[i as int].len(),
        c < frame_samples(*old(frame))[i as int][j as int].len(),
    ensures
        frame_width(*final(frame)) == frame_width(*old(frame)),
        frame_samples(*final(frame)) == frame_samples(*old(frame)).update(
            i as int,
            frame_samples(*old(frame))[i as int].update(
                j as int,
                frame_samples(*old(frame))[i as int][j as int].update(c as int, v),
            ),
        ),
{
    frame.pixels[[i, j, c]] = v;
}

/// Trusted: `ndarray::Array2::<u8>::zeros((height, width))`. Every sample
/// of the new array is 0. The call panics when the product of the axis
/// lengths that are not zero exceeds `isize::MAX`, which `requires`
/// excludes.
#[verifier::external_body]
fn samples_zeros(height: usize, width: usize) -> (plane: Plane)
    requires
        plane_fits(height as int, width as int),
    ensures
        plane_width(plane) == width,
        plane_samples(plane) == Seq::new(
            height as nat,
            |i: int| Seq::new(width as nat, |j: int| 0u8),
        ),
{
    Plane { samples: ndarray::Array2::<u8>::zeros((height, width)) }
}

/// Trusted: `ndarray::ArrayBase::dim` on a two-dimensional array gives the
/// numbers of rows and of columns.
#[verifier::external_body]
fn samples_dim(plane: &Plane) -> (dim: (usize, usize))
    ensures
        dim.0 == plane_samples(*plane).len(),
        dim.1 == plane_width(*plane),
{
    plane.samples.dim()
}

/// Trusted: indexing `ndarray::Array2` with `[i, j]` reads that sample.
/// Indexing panics out of bounds, which `requires` excludes.
#[verifier::external_body]
fn samples_get(plane: &Plane, i: usize, j: usize) -> (v: u8)
    requires
        i < plane_samples(*plane).len(),
        j < plane_samples(*plane)[i as int].len(),
    ensures
        v == plane_samples(*plane)[i as int][j as int],
{
    plane.samples[[i, j]]
}

/// Trusted: assigning through `IndexMut` of `ndarray::Array2` at `[i, j]`
/// replaces that one sample; every other sample and the shape stay as they
/// were.
#[verifier::external_body]
fn samples_set(plane: &mut Plane, i: usize, j: usize, v: u8)
    requires
        i < plane_samples(*old(plane)).len(),
        j < plane_samples(*old(plane))[i as int].len(),
    ensures
        plane_width(*final(plane)) == plane_width(*old(plane)),
        plane_samples(*final(plane)) == plane_samples(*old(plane)).update(
            i as int,
            plane_samples(*old(plane))[i as int].update(j as int, v),
        ),
{
    plane.samples[[i, j]] = v;
}

impl View for Frame {
    type V = Seq<Seq<Seq<u8>>>;

    open spec fn view(&self) -> Seq<Seq<Seq<u8>>> {
        frame_samples(*self)
    }
}

impl View for Plane {
    type V = Seq<Seq<u8>>;

    open spec fn view(&self) -> Seq<Seq<u8>> {
        plane_samples(*self)
    }
}

impl Frame {
    /// Every row has the frame's width and every pixel three channels, and
    /// the frame is no larger than an array can be.
    pub open spec fn wf(&self) -> bool {
        &&& is_frame_shape(self@, frame_width(*self))
        &&& frame_fits(self@.len() as int, frame_width(*self) as int)
    }

    /// The number of rows.
    pub open spec fn spec_height(&self) -> nat {
        self@.len()
    }

    /// The number of columns.
    pub open spec fn spec_width(&self) -> nat {
        frame_width(*self)
    }

    /// Tells whether a frame of `height x width` pixels can be made.
    pub fn fits(height: usize, width: usize) -> (ok: bool)
        ensures
            ok == frame_fits(height as int, width as int),
    {
        let rows = if height == 0 {
            1
        } else {
            height
        };
        let cols = if width == 0 {
            1
        } else {
            width
        };
        match rows.checked_mul(cols) {
            None => false,
            Some(cells) => match cells.checked_mul(3) {
                None => false,
                Some(bytes) => bytes <= isize::MAX as usize,
            },
        }
    }

    /// A frame of `height` rows and `width` columns whose samples are all 0.
    pub fn new(height: usize, width: usize) -> (frame: Frame)
        requires
            frame_fits(height as int, width as int),
        ensures
            frame.wf(),
            frame.spec_height() == height,
            frame.spec_width() == width,
            forall|i: int, j: int, c: int|
                0 <= i < height && 0 <= j < width && 0 <= c < 3 ==> #[trigger] frame@[i][j][c]
                    == 0,
    {
        pixels_zeros(height, width)
    }

    /// The number of rows.
    pub fn height(&self) -> (height: usize)
        ensures
            height == self.spec_height(),
    {
        pixels_dim(self).0
    }

    /// The number of columns.
    pub fn width(&self) -> (width: usize)
        ensures
            width == self.spec_width(),
    {
        pixels_dim(self).1
    }

    /// Channel `c` of the pixel in row `i`, column `j`.
    pub fn get(&self, i: usize, j: usize, c: usize) -> (v: u8)
        requires
            self.wf(),
            i < self.spec_height(),
            j < self.spec_width(),
            c < 3,
        ensures
            v == self@[i as int][j as int][c as int],
    {
        pixels_get(self, i, j, c)
    }

    /// Stores `v` as channel `c` of the pixel in row `i`, column `j`;
    /// nothing else changes.
    pub fn set(&mut self, i: usize, j: usize, c: usize, v: u8)
        requires
            old(self).wf(),
            i < old(self).spec_height(),
            j < old(self).spec_width(),
            c < 3,
        ensures
            final(self).wf(),
            final(self).spec_height() == old(self).spec_height(),
            final(self).spec_width() == old(self).spec_width(),
            final(self)@ == old(self)@.update(
                i as int,
                old(self)@[i as int].update(
                    j as int,
                    old(self)@[i as int][j as int].update(c as int, v),
                ),
            ),
    {
        pixels_set(self, i, j, c, v);
    }
}

impl Plane {
    /// Every row has the plane's width, and the plane is no larger than an
    /// array can be.
    pub open spec fn wf(&self) -> bool {
        &&& is_plane_shape(self@, plane_width(*self))
        &&& plane_fits(self@.len() as int, plane_width(*self) as int)
    }

    /// The number of rows.
    pub open spec fn spec_height(&self) -> nat {
        self@.len()
    }

    /// The number of columns.
    pub open spec fn spec_width(&self) -> nat {
        plane_width(*self)
    }

    /// Tells whether a plane of `height x width` samples can be made.
    pub fn fits(height: usize, width: usize) -> (ok: bool)
        ensures
            ok == plane_fits(height as int, width as int),
    {
        let rows = if height == 0 {
            1
        } else {
            height
        };
        let cols = if width == 0 {
            1
        } else {
            width
        };
        match rows.checked_mul(cols) {
            None => false,
            Some(cells) => cells <= isize::MAX as usize,
        }
    }

    /// A plane of `height` rows and `width` columns whose samples are all 0.
    pub fn new(height: usize, width: usize) -> (plane: Plane)
        requires
            plane_fits(height as int, width as int),
        ensures
            plane.wf(),
            plane.spec_height() == height,
            plane.spec_width() == width,
            forall|i: int, j: int|
                0 <= i < height && 0 <= j < width ==> #[trigger] plane@[i][j] == 0,
    {
        samples_zeros(height, width)
    }

    /// The number of rows.
    pub fn height(&self) -> (height: usize)
        ensures
            height == self.spec_height(),
    {
        samples_dim(self).0
    }

    /// The number of columns.
    pub fn width(&self) -> (width: usize)
        ensures
            width == self.spec_width(),
    {
        samples_dim(self).1
    }

    /// The sample in row `i`, column `j`.
    pub fn get(&self, i: usize, j: usize) -> (v: u8)
        requires
            self.wf(),
            i < self.spec_height(),
            j < self.spec_width(),
        ensures
            v == self@[i as int][j as int],
    {
        samples_get(self, i, j)
    }

    /// Stores `v` in row `i`, column `j`; nothing else changes.
    pub fn set(&mut self, i: usize, j: usize, v: u8)
        requires
            old(self).wf(),
            i < old(self).spec_height(),
            j < old(self).spec_width(),
        ensures
            final(self).wf(),
            final(self).spec_height() == old(self).spec_height(),
            final(self).spec_width() == old(self).spec_width(),
            final(self)@ == old(self)@.update(
                i as int,
                old(self)@[i as int].update(j as int, v),
            ),
    {
        samples_set(self, i, j, v);
    }
}

/// The samples of a frame as one byte string: row by row, pixel by pixel,
/// the three channels of a pixel side by side.
pub open spec fn frame_bytes(samples: Seq<Seq<Seq<u8>>>, width: nat) -> Seq<u8> {
    Seq::new(
        samples.len() * width * 3,
        |k: int| samples[k / (3 * width as int)][(k / 3) % (width as int)][k % 3],
    )
}

/// Channel `c` of the pixel in row `i`, column `j` stands at position
/// `(i * width + j) * 3 + c` of the byte string.
pub proof fn lemma_sample_position(height: int, width: int, i: int, j: int, c: int)
    requires
        0 <= i < height,
        0 <= j < width,
        0 <= c < 3,
    ensures
        0 <= (i * width + j) * 3 + c < height * width * 3,
        ((i * width + j) * 3 + c) / (3 * width) == i,
        (((i * width + j) * 3 + c) / 3) % width == j,
        ((i * width + j) * 3 + c) % 3 == c,
{
    let p = i * width + j;
    let k = p * 3 + c;
    assert(0 <= p < height * width) by (nonlinear_arith)
        requires
            0 <= i < height,
            0 <= j < width,
            p == i * width + j,
    ;
    assert(height * width * 3 == (height * width) * 3);
    assert(k / 3 == p && k % 3 == c);
    assert(i * width == width * i) by (nonlinear_arith);
    lemma_fundamental_div_mod_converse(p, width, i, j);
    lemma_div_denominator(k, 3, width);
}

impl Frame {
    /// The frame of `height x width` pixels whose samples are the bytes of
    /// `data`, row by row with the channels of a pixel side by side; `None`
    /// when `data` has not exactly `height * width * 3` bytes or a frame of
    /// that shape cannot be made.
    pub fn from_bytes(height: usize, width: usize, data: &Vec<u8>) -> (res: Option<Frame>)
        ensures
            res matches Some(frame) ==> frame.wf() && frame.spec_height() == height
                && frame.spec_width() == width && frame_bytes(frame@, width as nat) == data@,
            res is Some <==> height * width * 3 == data@.len() && frame_fits(
                height as int,
                width as int,
            ),
    {
        if !Frame::fits(height, width) {
            return None;
        }
        assert(height * width * 3 <= isize::MAX) by (nonlinear_arith)
            requires
                axis_len(height as int) * axis_len(width as int) * 3 <= isize::MAX,
                0 <= height <= axis_len(height as int),
                0 <= width <= axis_len(width as int),
        ;
        assert(height * width <= height * width * 3) by (nonlinear_arith)
            requires
                0 <= height,
                0 <= width,
        ;
        let total = height * width * 3;
        if total != data.len() {
            return None;
        }
        let mut frame = Frame::new(height, width);
        let mut k: usize = 0;
        let mut i: usize = 0;
        while i < height
            invariant
                frame.wf(),
                frame.spec_height() == height,
                frame.spec_width() == width,
                data@.len() == height * width * 3,
                data@.len() <= usize::MAX,
                i <= height,
                k == i * width * 3,
                forall|r: int, q: int, c: int|
                    0 <= r < i && 0 <= q < width && 0 <= c < 3 ==> #[trigger] frame@[r][q][c]
                        == data@[(r * width + q) * 3 + c],
            decreases height - i,
        {
            let mut j: usize = 0;
            while j < width
                invariant
                    frame.wf(),
                    frame.spec_height() == height,
                    frame.spec_width() == width,
                    data@.len() == height * width * 3,
                    data@.len() <= usize::MAX,
                    i < height,
                    j <= width,
                    k == (i * width + j) * 3,
                    forall|r: int, q: int, c: int|
                        0 <= r < i && 0 <= q < width && 0 <= c < 3 ==> #[trigger] frame@[r][q][c]
                            == data@[(r * width + q) * 3 + c],
                    forall|q: int, c: int|
                        0 <= q < j && 0 <= c < 3 ==> #[trigger] frame@[i as int][q][c] == data@[(i
                            * width + q) * 3 + c],
                decreases width - j,
            {
                proof {
                    lemma_sample_position(height as int, width as int, i as int, j as int, 2);
                }
                assert(k + 2 < data@.len());
                frame.set(i, j, 0, data[k]);
                frame.set(i, j, 1, data[k + 1]);
                frame.set(i, j, 2, data[k + 2]);
                k += 3;
                j += 1;
            }
            i += 1;
            assert(k == i * width * 3) by (nonlinear_arith)
                requires
                    k == ((i - 1) * width + width) * 3,
            ;
        }
        proof {
            let bytes = frame_bytes(frame@, width as nat);
            assert forall|n: int| 0 <= n < bytes.len() implies bytes[n] == data@[n] by {
                let r = n / (3 * width as int);
                let q = (n / 3) % (width as int);
                let c = n % 3;
                lemma_flat_position(height as int, width as int, n);
                assert(frame@[r][q][c] == data@[(r * width + q) * 3 + c]);
            }
            assert(bytes =~= data@);
        }
        Some(frame)
    }

    /// The samples of the frame as one byte string, row by row with the
    /// channels of a pixel side by side.
    pub fn to_bytes(&self) -> (data: Vec<u8>)
        requires
            self.wf(),
        ensures
            data@ == frame_bytes(self@, self.spec_width()),
    {
        let height = self.height();
        let width = self.width();
        let ghost target = frame_bytes(self@, self.spec_width());
        let mut data: Vec<u8> = Vec::new();
        let mut i: usize = 0;
        while i < height
            invariant
                self.wf(),
                height == self.spec_height(),
                width == self.spec_width(),
                target == frame_bytes(self@, self.spec_width()),
                i <= height,
                data@.len() == i * width * 3,
                forall|n: int| 0 <= n < data@.len() ==> data@[n] == target[n],
            decreases height - i,
        {
            let mut j: usize = 0;
            while j < width
                invariant
                    self.wf(),
                    height == self.spec_height(),
                    width == self.spec_width(),
                    target == frame_bytes(self@, self.spec_width()),
                    i < height,
                    j <= width,
                    data@.len() == (i * width + j) * 3,
                    forall|n: int| 0 <= n < data@.len() ==> data@[n] == target[n],
                decreases width - j,
            {
                proof {
                    lemma_sample_position(height as int, width as int, i as int, j as int, 0);
                    lemma_sample_position(height as int, width as int, i as int, j as int, 1);
                    lemma_sample_position(height as int, width as int, i as int, j as int, 2);
                }
                data.push(self.get(i, j, 0));
                data.push(self.get(i, j, 1));
                data.push(self.get(i, j, 2));
                j += 1;
            }
            i += 1;
            assert(data@.len() == i * width * 3) by (nonlinear_arith)
                requires
                    data@.len() == ((i - 1) * width + width) * 3,
            ;
        }
        assert(data@ =~= target);
        data
    }
}

/// Position `n` of the byte string of a frame belongs to a row, a column
/// and a channel of the frame, and those lead back to `n`.
pub proof fn lemma_flat_position(height: int, width: int, n: int)
    requires
        0 <= n < height * width * 3,
        0 <= height,
        0 <= width,
    ensures
        0 <= n / (3 * width) < height,
        0 <= (n / 3) % width < width,
        0 <= n % 3 < 3,
        ((n / (3 * width)) * width + (n / 3) % width) * 3 + n % 3 == n,
{
    assert(width > 0) by (nonlinear_arith)
        requires
            0 <= n < height * width * 3,
            0 <= width,
            0 <= height,
    ;
    let p = n / 3;
    assert(0 <= p < height * width) by (nonlinear_arith)
        requires
            0 <= n < height * width * 3,
            p == n / 3,
            n == 3 * p + n % 3,
            0 <= n % 3 < 3,
    ;
    lemma_div_denominator(n, 3, width);
    vstd::arithmetic::div_mod::lemma_fundamental_div_mod(p, width);
    let r = p / width;
    let q = p % width;
    assert(0 <= r < height) by (nonlinear_arith)
        requires
            0 <= p < height * width,
            p == width * r + q,
            0 <= q < width,
            width > 0,
    ;
    assert(r * width == width * r) by (nonlinear_arith);
}

} // verus!
