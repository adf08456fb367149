//! The interleaved RGB raster that the convolution strategies read and build.

use vstd::prelude::*;
use crate::model::{idx3, lemma_idx3_bounds};

verus! {

/// An RGB raster: `height * width * 3` bytes, row-major, channel-interleaved.
#[derive(Debug)]
pub struct RgbImage {
    /// Raster bytes in row-major, channel-interleaved order.
    pub content: Vec<u8>,
    /// Height in pixels.
    pub height: usize,
    /// Width in pixels.
    pub width: usize,
}

impl RgbImage {
    /// The raster bytes as a sequence.
    pub open spec fn bytes(&self) -> Seq<u8> {
        self.content@
    }

    /// Well-formedness: the buffer length matches the declared dimensions.
    pub open spec fn wf(&self) -> bool {
        &&& self.content@.len() == self.height * self.width * 3
        &&& self.content@.len() <= usize::MAX
    }

    /// Builds an image from a raw byte buffer and its dimensions.
    pub fn from_raw(content: Vec<u8>, height: usize, width: usize) -> (r: RgbImage)
        requires
            content@.len() == height * width * 3,
        ensures
            r.wf(),
            r.height == height,
            r.width == width,
            r.bytes() == content@,
    {
        let _len: usize = content.len();
        RgbImage { content, height, width }
    }

    /// An empty placeholder image.
    pub fn empty() -> (r: RgbImage)
        ensures
            r.wf(),
            r.height == 0,
            r.width == 0,
            r.bytes().len() == 0,
    {
        RgbImage { content: Vec::new(), height: 0, width: 0 }
    }

    /// Read-only access to the raw interleaved pixel bytes.
    pub fn content(&self) -> (r: &Vec<u8>)
        ensures
            r@ == self.bytes(),
    {
        &self.content
    }

    /// The byte of channel `c` of pixel `(y, x)`.
    pub fn pixel(&self, y: usize, x: usize, c: usize) -> (v: u8)
        requires
            self.wf(),
            y < self.height,
            x < self.width,
            c < 3,
        ensures
            v == self.bytes()[idx3(self.width as int, y as int, x as int, c as int)],
    {
        proof {
            lemma_idx3_bounds(
                self.height as int,
                self.width as int,
                y as int,
                x as int,
                c as int,
            );
        }
        self.content[(y * self.width + x) * 3 + c]
    }
}

impl PartialEq for RgbImage {
    /// Pixel-exact comparison: equal dimensions and equal bytes.
    fn eq(&self, other: &Self) -> (r: bool) {
        if self.height != other.height || self.width != other.width {
            return false;
        }
        if self.content.len() != other.content.len() {
            return false;
        }
        let n: usize = self.content.len();
        let mut i: usize = 0;
        while i < n
            invariant
                i <= n,
                n == self.content@.len(),
                n == other.content@.len(),
                forall|t: int| 0 <= t < i ==> self.content@[t] == other.content@[t],
            decreases n - i,
        {
            if self.content[i] != other.content[i] {
                return false;
            }
            i += 1;
        }
        proof {
            assert(self.content@ =~= other.content@);
        }
        true
    }
}

impl vstd::std_specs::cmp::PartialEqSpecImpl for RgbImage {
    open spec fn obeys_eq_spec() -> bool {
        true
    }

    open spec fn eq_spec(&self, other: &RgbImage) -> bool {
        &&& self.height == other.height
        &&& self.width == other.width
        &&& self.content@ == other.content@
    }
}

} // verus!
