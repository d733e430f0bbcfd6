use vstd::prelude::*;

use color_quant::NeuQuant;

use crate::color::Rgba;

verus! {

#[verifier::external_type_specification]
#[verifier::external_body]
pub struct ExNeuQuant(NeuQuant);

/// The RGBA colour table that NeuQuant learns with sampling factor
/// `quality` and `colors` entries from the RGBA samples `bytes`.
pub uninterp spec fn neuquant_table(quality: i32, colors: usize, bytes: Seq<u8>) -> Seq<u8>;

/// The entry of that table which NeuQuant matches to the RGBA `pixel`.
pub uninterp spec fn neuquant_index(quality: i32, colors: usize, bytes: Seq<u8>, pixel: Seq<u8>) -> usize;

/// A colour table learned from a stream of RGBA samples, kept with what it
/// was learned from.
pub(crate) struct Quantizer {
    net: NeuQuant,
    quality: i32,
    size: usize,
    training: Vec<u8>,
}

impl Quantizer {
    pub(crate) closed spec fn quality(&self) -> i32 {
        self.quality
    }

    /// The number of entries in the colour table.
    pub(crate) closed spec fn size(&self) -> usize {
        self.size
    }

    pub(crate) closed spec fn training(&self) -> Seq<u8> {
        self.training@
    }

    /// Relies on color_quant::NeuQuant::new, which trains a network of
    /// `colors` neurons on `bytes` (read as RGBA quadruples). It divides by
    /// `quality`, whose documented range is 1 to 30, and computes
    /// `colors - 1`, so a table of no entries would underflow; tables are
    /// kept to at most 512 entries.
    #[verifier::external_body]
    pub(crate) fn train(quality: i32, colors: usize, bytes: Vec<u8>) -> (q: Quantizer)
        requires
            1 <= quality <= 30,
            1 <= colors <= 512,
        ensures
            q.quality() == quality,
            q.size() == colors,
            q.training() == bytes@,
    {
        let net = NeuQuant::new(quality, colors, bytes.as_slice());
        Quantizer { net, quality, size: colors, training: bytes }
    }

    /// Relies on color_quant::NeuQuant::color_map_rgba: four bytes (R, G, B, A)
    /// for each of the table's entries.
    #[verifier::external_body]
    pub(crate) fn color_map(&self) -> (t: Vec<u8>)
        ensures
            t@ == neuquant_table(self.quality(), self.size(), self.training()),
            t@.len() == 4 * self.size(),
    {
        self.net.color_map_rgba()
    }

    /// Relies on color_quant::NeuQuant::index_of: the position in the table of
    /// the entry that best matches the pixel.
    #[verifier::external_body]
    pub(crate) fn index_of(&self, pixel: &Rgba) -> (i: usize)
        ensures
            i == neuquant_index(
                self.quality(),
                self.size(),
                self.training(),
                seq![pixel.r, pixel.g, pixel.b, pixel.a],
            ),
            i < self.size(),
    {
        self.net.index_of(&[pixel.r, pixel.g, pixel.b, pixel.a])
    }
}

} // verus!
