use vstd::prelude::*;

verus! {

/// Mathematical model of a raster: its dimensions and the flat sequence of
/// samples, four per pixel (R, G, B, A), addressed row-major.
#[verifier::ext_equal]
pub ghost struct BufModel {
    pub width: int,
    pub height: int,
    pub data: Seq<u8>,
}

impl BufModel {
    /// The flat sample sequence holds exactly four samples per pixel.
    pub open spec fn wf(self) -> bool {
        &&& 0 <= self.width
        &&& 0 <= self.height
        &&& self.data.len() == self.width * self.height * 4
    }

    /// Index of channel `c` of the pixel at `(x, y)` in the flat sequence.
    pub open spec fn index_of(self, x: int, y: int, c: int) -> int {
        (y * self.width + x) * 4 + c
    }

    /// Sample of channel `c` of the pixel at `(x, y)`.
    pub open spec fn sample(self, x: int, y: int, c: int) -> u8 {
        self.data[self.index_of(x, y, c)]
    }
}

/// An owned RGBA raster: `width * height` pixels, four samples each, stored
/// row-major as `(y * width + x) * 4 + channel`.
pub struct PixelBuffer {
    pub width: usize,
    pub height: usize,
    pub data: Vec<u8>,
}

impl View for PixelBuffer {
    type V = BufModel;

    open spec fn view(&self) -> BufModel {
        BufModel { width: self.width as int, height: self.height as int, data: self.data@ }
    }
}

impl PixelBuffer {
    /// The buffer's length invariant: one byte per channel of every pixel.
    pub open spec fn wf(&self) -> bool {
        self@.wf()
    }
}

/// Splitting a flat index into its pixel and channel parts.
pub proof fn lemma_flat_index(p: int, c: int)
    requires
        0 <= p,
        0 <= c < 4,
    ensures
        (p * 4 + c) / 4 == p,
        (p * 4 + c) % 4 == c,
{
    vstd::arithmetic::div_mod::lemma_fundamental_div_mod_converse(p * 4 + c, 4, p, c);
}

/// Copies the sample vector, so that a pass can own its working raster.
pub fn clone_samples(v: &Vec<u8>) -> (r: Vec<u8>)
    ensures
        r@ == v@,
{
    let r = v.clone();
    proof {
        assert(r@ =~= v@);
    }
    r
}

} // verus!
