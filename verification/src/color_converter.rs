//! The RGB to CIE Lab lookup table: one entry for each of the 2^24 packed
//! RGB triples, built once and then read by every scoring pass. A Lab
//! component is carried as the raw bit pattern of its 32-bit floating-point
//! value, so that the table is a plain value to the rest of the library.

use vstd::prelude::*;

verus! {

use vstd::arithmetic::div_mod::lemma_fundamental_div_mod_converse;
use crate::draw_command::MAX_DIMENSION;
use crate::canvas::pixel_byte;

/// A CIE Lab color, each component held as the bit pattern of the 32-bit
/// floating-point value that the conversion produced.
#[derive(Clone, Copy, Debug, PartialEq, Eq, Structural)]
pub struct LabColor {
    pub l: u32,
    pub a: u32,
    pub b: u32,
}

/// The three Lab component bit patterns that converting the 8-bit RGB
/// triple `(r, g, b)` yields.
pub uninterp spec fn lab_of(r: u8, g: u8, b: u8) -> (u32, u32, u32);

/// `lab_of` bundled as a [`LabColor`].
pub open spec fn lab_color_of(r: u8, g: u8, b: u8) -> LabColor {
    LabColor { l: lab_of(r, g, b).0, a: lab_of(r, g, b).1, b: lab_of(r, g, b).2 }
}

/// The packed 24-bit index of an RGB triple: red high, blue low.
pub open spec fn spec_rgb_index(r: u8, g: u8, b: u8) -> int {
    65536 * r + 256 * g + b
}

/// Relies on `lab::Lab::from_rgb`: a pure conversion whose result depends
/// on the three channel bytes alone; the component bit patterns are handed
/// back unchanged.
#[verifier::external_body]
fn lab_from_rgb(r: u8, g: u8, b: u8) -> (c: LabColor)
    ensures
        c.l == lab_of(r, g, b).0,
        c.a == lab_of(r, g, b).1,
        c.b == lab_of(r, g, b).2,
{
    let lab = lab::Lab::from_rgb(&[r, g, b]);
    LabColor { l: lab.l.to_bits(), a: lab.a.to_bits(), b: lab.b.to_bits() }
}

/// The number of packed RGB triples.
pub const TABLE_LEN: u32 = 0x100_0000;

/// The precomputed RGB to Lab table, indexed by the packed RGB value.
/// Built once, immutable afterwards, shared read-only by all scoring.
pub struct ColorConverter {
    table: Vec<LabColor>,
}

impl ColorConverter {
    /// The table entry for `(r, g, b)`.
    pub closed spec fn spec_lookup(&self, r: u8, g: u8, b: u8) -> LabColor {
        self.table@[spec_rgb_index(r, g, b)]
    }

    /// Well-formed: fully populated, every entry the exact conversion of
    /// the triple that indexes it.
    pub closed spec fn wf(&self) -> bool {
        &&& self.table@.len() == TABLE_LEN
        &&& forall|r: u8, g: u8, b: u8|
            self.table@[spec_rgb_index(r, g, b)] == #[trigger] lab_color_of(r, g, b)
    }

    /// Build the table: one pass over all 2^24 RGB triples, converting each
    /// and storing it at its packed index.
    pub fn new() -> (c: ColorConverter)
        ensures
            c.wf(),
    {
        let mut table: Vec<LabColor> = Vec::new();
        let mut idx: u32 = 0;
        while idx < TABLE_LEN
            invariant
                idx <= TABLE_LEN,
                table@.len() == idx,
                forall|k: int|
                    0 <= k < idx ==> #[trigger] table@[k] == lab_color_of(
                        (k / 65536) as u8,
                        ((k % 65536) / 256) as u8,
                        (k % 256) as u8,
                    ),
            decreases TABLE_LEN - idx,
        {
            let r = (idx / 65536) as u8;
            let g = ((idx % 65536) / 256) as u8;
            let b = (idx % 256) as u8;
            let lab = lab_from_rgb(r, g, b);
            table.push(lab);
            idx = idx + 1;
        }
        let c = ColorConverter { table };
        proof {
            assert forall|r: u8, g: u8, b: u8|
                c.table@[spec_rgb_index(r, g, b)] == #[trigger] lab_color_of(r, g, b) by {
                let k = spec_rgb_index(r, g, b);
                lemma_fundamental_div_mod_converse(k, 65536, r as int, 256 * g + b);
                lemma_fundamental_div_mod_converse(256 * g + b, 256, g as int, b as int);
                lemma_fundamental_div_mod_converse(k, 256, 256 * r + g, b as int);
                assert(0 <= k < TABLE_LEN);
                assert(c.table@[k] == lab_color_of(
                    (k / 65536) as u8,
                    ((k % 65536) / 256) as u8,
                    (k % 256) as u8,
                ));
            }
        }
        c
    }

    /// Pure table read: the Lab color of an RGB triple.
    pub fn get_lab(&self, r: u8, g: u8, b: u8) -> (lab: LabColor)
        requires
            self.wf(),
        ensures
            lab == lab_color_of(r, g, b),
            lab == self.spec_lookup(r, g, b),
    {
        let value = (r as u32) * 65536 + (g as u32) * 256 + (b as u32);
        proof {
            assert(value == spec_rgb_index(r, g, b));
            assert(self.table@[spec_rgb_index(r, g, b)] == lab_color_of(r, g, b));
        }
        self.table[value as usize]
    }

    /// Project a row-major RGBA target image through the table: one Lab
    /// color per pixel, in pixel order, the source alpha ignored.
    pub fn lab_image(&self, w: u32, h: u32, img: &Vec<u8>) -> (result: Vec<LabColor>)
        requires
            self.wf(),
            w <= MAX_DIMENSION,
            h <= MAX_DIMENSION,
            img.len() == 4 * (w * h),
        ensures
            result@.len() == w * h,
            forall|i: int|
                0 <= i < w * h ==> #[trigger] result@[i] == lab_color_of(
                    pixel_byte(img@, i, 0),
                    pixel_byte(img@, i, 1),
                    pixel_byte(img@, i, 2),
                ),
    {
        proof {
            assert(w * h <= 0x1_0000_0000) by (nonlinear_arith)
                requires
                    w <= 0x1_0000,
                    h <= 0x1_0000,
            ;
        }
        let count = (w as u64) * (h as u64);
        let mut result: Vec<LabColor> = Vec::new();
        let mut i: u64 = 0;
        while i < count
            invariant
                self.wf(),
                i <= count,
                count == w * h,
                count <= 0x1_0000_0000,
                img.len() == 4 * (w * h),
                result@.len() == i,
                forall|j: int|
                    0 <= j < i ==> #[trigger] result@[j] == lab_color_of(
                        pixel_byte(img@, j, 0),
                        pixel_byte(img@, j, 1),
                        pixel_byte(img@, j, 2),
                    ),
            decreases count - i,
        {
            proof {
                assert(4 * i + 3 < img@.len());
            }
            let base = (4 * i) as usize;
            let r = img[base];
            let g = img[base + 1];
            let b = img[base + 2];
            let lab = self.get_lab(r, g, b);
            result.push(lab);
            i = i + 1;
        }
        result
    }
}

/// Table round trip: looking any triple up in a well-formed table yields
/// exactly the direct perceptual-space conversion of that triple.
pub proof fn lemma_table_round_trip(c: &ColorConverter, r: u8, g: u8, b: u8)
    requires
        c.wf(),
    ensures
        c.spec_lookup(r, g, b) == lab_color_of(r, g, b),
{
}

} // verus!
