use vstd::prelude::*;

use vstd::string::StringExecFns;

use crate::color::{hex_code, Image, Rgb, Rgba};
use crate::quantize::{neuquant_index, neuquant_table, Quantizer};

verus! {

/// Pixels at least this opaque may be set aside as background.
pub const MIN_ALPHA: u8 = 125;

/// Channels above this value count as white.
pub const MAX_COLOR: u8 = 250;

/// A pixel is interesting unless it is both nearly opaque and nearly white.
pub open spec fn is_interesting_spec(p: Rgba) -> bool {
    !(p.a >= MIN_ALPHA && p.r > MAX_COLOR && p.g > MAX_COLOR && p.b > MAX_COLOR)
}

pub open spec fn rgba_bytes(p: Rgba) -> Seq<u8> {
    seq![p.r, p.g, p.b, p.a]
}

/// The channel bytes of the interesting pixels, in order.
pub open spec fn training_bytes(pixels: Seq<Rgba>) -> Seq<u8>
    decreases pixels.len(),
{
    if pixels.len() == 0 {
        seq![]
    } else {
        let rest = training_bytes(pixels.drop_last());
        if is_interesting_spec(pixels.last()) {
            rest + rgba_bytes(pixels.last())
        } else {
            rest
        }
    }
}

/// The table entry that the quantizer trained on the interesting pixels
/// matches to each pixel.
pub open spec fn quantized_indices(quality: i32, colors: usize, pixels: Seq<Rgba>) -> Seq<usize> {
    Seq::new(
        pixels.len(),
        |i: int| neuquant_index(quality, colors, training_bytes(pixels), rgba_bytes(pixels[i])),
    )
}

/// Entry `i` of an RGBA colour table, alpha dropped.
pub open spec fn table_color(table: Seq<u8>, i: int) -> Rgb {
    Rgb { r: table[4 * i], g: table[4 * i + 1], b: table[4 * i + 2] }
}

/// The entries of an RGBA colour table, alpha dropped.
pub open spec fn table_colors(table: Seq<u8>) -> Seq<Rgb> {
    Seq::new((table.len() / 4) as nat, |i: int| table_color(table, i))
}

/// The colours of `s`, each kept at its first occurrence.
pub open spec fn unique_colors(s: Seq<Rgb>) -> Seq<Rgb>
    decreases s.len(),
{
    if s.len() == 0 {
        seq![]
    } else {
        let d = unique_colors(s.drop_last());
        if d.contains(s.last()) {
            d
        } else {
            d.push(s.last())
        }
    }
}

/// How many of the classified pixels fell on a table entry of colour `c`.
pub open spec fn population(indices: Seq<usize>, colors: Seq<Rgb>, c: Rgb) -> nat
    decreases indices.len(),
{
    if indices.len() == 0 {
        0
    } else {
        population(indices.drop_last(), colors, c) + if colors[indices.last() as int] == c {
            1nat
        } else {
            0nat
        }
    }
}

pub open spec fn sum_of(s: Seq<usize>) -> int
    decreases s.len(),
{
    if s.len() == 0 {
        0
    } else {
        sum_of(s.drop_last()) + s.last()
    }
}

/// The sum of the populations of the colours of `pal`.
pub open spec fn total_population(pal: Seq<Rgb>, indices: Seq<usize>, colors: Seq<Rgb>) -> int
    decreases pal.len(),
{
    if pal.len() == 0 {
        0
    } else {
        total_population(pal.drop_last(), indices, colors) + population(
            indices,
            colors,
            pal.last(),
        )
    }
}

/// A reduced set of colours, each with the number of pixels that it stands for.
#[derive(Clone, Debug)]
pub struct Palette {
    /// Distinct colours, in the order in which the quantizer produced them.
    pub palette: Vec<Rgb>,
    /// `pixel_counts[k]` is the number of pixels represented by `palette[k]`.
    pub pixel_counts: Vec<usize>,
}

pub proof fn lemma_unique_colors(s: Seq<Rgb>)
    ensures
        unique_colors(s).no_duplicates(),
        forall|c: Rgb| unique_colors(s).contains(c) <==> s.contains(c),
    decreases s.len(),
{
    if s.len() > 0 {
        lemma_unique_colors(s.drop_last());
        let d = unique_colors(s.drop_last());
        assert forall|c: Rgb| s.contains(c) <==> (s.drop_last().contains(c) || c == s.last()) by {
            if s.contains(c) {
                let i = choose|i: int| 0 <= i < s.len() && s[i] == c;
                if i < s.len() - 1 {
                    assert(s.drop_last()[i] == c);
                }
            }
            if s.drop_last().contains(c) {
                let i = choose|i: int| 0 <= i < s.len() - 1 && s.drop_last()[i] == c;
                assert(s[i] == c);
            }
            if c == s.last() {
                assert(s[s.len() - 1] == c);
            }
        }
        if !d.contains(s.last()) {
            assert forall|c: Rgb| d.push(s.last()).contains(c) <==> (d.contains(c) || c == s.last()) by {
                if d.push(s.last()).contains(c) {
                    let i = choose|i: int| 0 <= i < d.len() + 1 && d.push(s.last())[i] == c;
                    if i < d.len() {
                        assert(d[i] == c);
                    }
                }
                if d.contains(c) {
                    let i = choose|i: int| 0 <= i < d.len() && d[i] == c;
                    assert(d.push(s.last())[i] == c);
                }
                if c == s.last() {
                    assert(d.push(s.last())[d.len() as int] == c);
                }
            }
        }
    }
}

proof fn lemma_population_bound(indices: Seq<usize>, colors: Seq<Rgb>, c: Rgb)
    ensures
        population(indices, colors, c) <= indices.len(),
    decreases indices.len(),
{
    if indices.len() > 0 {
        lemma_population_bound(indices.drop_last(), colors, c);
    }
}

proof fn lemma_total_push(pal: Seq<Rgb>, indices: Seq<usize>, colors: Seq<Rgb>, x: usize)
    requires
        pal.no_duplicates(),
    ensures
        total_population(pal, indices.push(x), colors) == total_population(pal, indices, colors)
            + if pal.contains(colors[x as int]) {
            1int
        } else {
            0int
        },
    decreases pal.len(),
{
    assert(indices.push(x).drop_last() =~= indices);
    if pal.len() > 0 {
        let p = pal.drop_last();
        assert(p.no_duplicates());
        lemma_total_push(p, indices, colors, x);
        let c = colors[x as int];
        assert(pal.contains(c) <==> (p.contains(c) || pal.last() == c)) by {
            if pal.contains(c) {
                let i = choose|i: int| 0 <= i < pal.len() && pal[i] == c;
                if i < pal.len() - 1 {
                    assert(p[i] == c);
                }
            }
            if p.contains(c) {
                let i = choose|i: int| 0 <= i < p.len() && p[i] == c;
                assert(pal[i] == c);
            }
            if pal.last() == c {
                assert(pal[pal.len() - 1] == c);
            }
        }
        if p.contains(c) {
            let i = choose|i: int| 0 <= i < p.len() && p[i] == c;
            assert(pal[i] == p[i]);
            assert(pal.last() != c);
        }
    }
}

/// Every pixel is counted once: when each classified pixel falls on a colour of
/// the distinct colours `pal`, their populations add up to the number of pixels.
pub proof fn lemma_total_population(pal: Seq<Rgb>, indices: Seq<usize>, colors: Seq<Rgb>)
    requires
        pal.no_duplicates(),
        forall|i: int| 0 <= i < indices.len() ==> pal.contains(colors[indices[i] as int]),
    ensures
        total_population(pal, indices, colors) == indices.len(),
    decreases indices.len(),
{
    if indices.len() == 0 {
        assert(total_population(pal, indices, colors) == 0) by {
            lemma_total_empty(pal, indices, colors);
        }
    } else {
        let rest = indices.drop_last();
        assert(rest.push(indices.last()) =~= indices);
        assert forall|i: int| 0 <= i < rest.len() implies pal.contains(colors[rest[i] as int]) by {
            assert(rest[i] == indices[i]);
        }
        lemma_total_population(pal, rest, colors);
        lemma_total_push(pal, rest, colors, indices.last());
    }
}

proof fn lemma_total_empty(pal: Seq<Rgb>, indices: Seq<usize>, colors: Seq<Rgb>)
    requires
        indices.len() == 0,
    ensures
        total_population(pal, indices, colors) == 0,
    decreases pal.len(),
{
    if pal.len() > 0 {
        lemma_total_empty(pal.drop_last(), indices, colors);
    }
}

proof fn lemma_sum_counts(counts: Seq<usize>, pal: Seq<Rgb>, indices: Seq<usize>, colors: Seq<Rgb>)
    requires
        counts.len() == pal.len(),
        forall|k: int| 0 <= k < pal.len() ==> counts[k] == population(indices, colors, pal[k]),
    ensures
        sum_of(counts) == total_population(pal, indices, colors),
    decreases pal.len(),
{
    if pal.len() > 0 {
        lemma_sum_counts(counts.drop_last(), pal.drop_last(), indices, colors);
    }
}


/// Whether a pixel may contribute to the palette: all but the nearly opaque,
/// nearly white ones, which are taken for background.
pub fn is_interesting(pixel: &Rgba) -> (r: bool)
    ensures
        r == is_interesting_spec(*pixel),
{
    !(pixel.a >= MIN_ALPHA && pixel.r > MAX_COLOR && pixel.g > MAX_COLOR && pixel.b > MAX_COLOR)
}

/// The bytes fed to the quantizer: R, G, B and A of every interesting pixel,
/// in order.
pub fn training_stream(pixels: &Vec<Rgba>) -> (r: Vec<u8>)
    ensures
        r@ == training_bytes(pixels@),
{
    let mut out: Vec<u8> = Vec::new();
    let mut i: usize = 0;
    while i < pixels.len()
        invariant
            i <= pixels.len(),
            out@ == training_bytes(pixels@.take(i as int)),
        decreases pixels.len() - i,
    {
        let p = pixels[i];
        assert(pixels@.take(i + 1).drop_last() =~= pixels@.take(i as int));
        assert(pixels@.take(i + 1).last() == p);
        if is_interesting(&p) {
            let ghost before = out@;
            out.push(p.r);
            out.push(p.g);
            out.push(p.b);
            out.push(p.a);
            assert(out@ =~= before + rgba_bytes(p));
        }
        i += 1;
    }
    assert(pixels@.take(pixels.len() as int) =~= pixels@);
    out
}

/// The position of `c` in `colors`, if it is there.
pub(crate) fn position_of(colors: &Vec<Rgb>, c: &Rgb) -> (r: Option<usize>)
    ensures
        match r {
            Some(k) => k < colors@.len() && colors@[k as int] == *c,
            None => !colors@.contains(*c),
        },
{
    let mut k: usize = 0;
    while k < colors.len()
        invariant
            k <= colors.len(),
            forall|j: int| 0 <= j < k ==> colors@[j] != *c,
        decreases colors.len() - k,
    {
        if colors[k] == *c {
            return Some(k);
        }
        k += 1;
    }
    None
}

impl Palette {
    /// Counts have one entry per colour, the colours are distinct and the
    /// counts add up to a machine-sized number.
    pub open spec fn wf(&self) -> bool {
        &&& self.pixel_counts@.len() == self.palette@.len()
        &&& self.palette@.no_duplicates()
        &&& sum_of(self.pixel_counts@) <= usize::MAX
    }

    /// This palette is what a colour table `table` (RGBA quadruples) and a
    /// classification `indices` of the pixels into its entries give: the
    /// table's distinct colours in order of first occurrence, each with the
    /// number of pixels that fell on an entry of that colour.
    pub open spec fn is_quantized(&self, table: Seq<u8>, indices: Seq<usize>) -> bool {
        let colors = table_colors(table);
        &&& self.palette@ == unique_colors(colors)
        &&& self.pixel_counts@.len() == self.palette@.len()
        &&& forall|k: int|
            0 <= k < self.palette@.len() ==> self.pixel_counts@[k] == population(
                indices,
                colors,
                self.palette@[k],
            )
    }

    /// Builds the palette from a quantizer's colour table and its
    /// classification of every pixel. Entries of the table that share a
    /// colour become one colour, and their counts are merged.
    pub fn from_quantized(table: &Vec<u8>, indices: &Vec<usize>) -> (p: Palette)
        requires
            table@.len() % 4 == 0,
            forall|i: int| 0 <= i < indices@.len() ==> indices@[i] < table@.len() / 4,
        ensures
            p.is_quantized(table@, indices@),
            p.wf(),
            sum_of(p.pixel_counts@) == indices@.len(),
    {
        let ghost colors = table_colors(table@);
        let n: usize = table.len() / 4;
        let mut palette: Vec<Rgb> = Vec::new();
        let mut slot: Vec<usize> = Vec::new();
        let mut j: usize = 0;
        while j < n
            invariant
                n == table@.len() / 4,
                colors == table_colors(table@),
                j <= n,
                palette@ == unique_colors(colors.take(j as int)),
                slot@.len() == j,
                4 * n <= table@.len() <= usize::MAX,
                forall|t: int|
                    #![trigger slot@[t]]
                    0 <= t < j ==> slot@[t] < palette@.len() && palette@[slot@[t] as int]
                        == colors[t],
            decreases n - j,
        {
            let c = Rgb { r: table[4 * j], g: table[4 * j + 1], b: table[4 * j + 2] };
            assert(c == colors[j as int]);
            let ghost old_palette = palette@;
            let ghost old_slot = slot@;
            assert(colors.take(j + 1).drop_last() =~= colors.take(j as int));
            assert(colors.take(j + 1).last() == c);
            match position_of(&palette, &c) {
                Some(k) => {
                    slot.push(k);
                },
                None => {
                    slot.push(palette.len());
                    palette.push(c);
                },
            }
            assert forall|t: int|
                0 <= t < j + 1 implies slot@[t] < palette@.len() && palette@[slot@[t] as int]
                    == colors[t] by {
                if t < j {
                    assert(slot@[t] == old_slot[t]);
                    assert(palette@[old_slot[t] as int] == old_palette[old_slot[t] as int]);
                }
            }
            j += 1;
        }
        assert(colors.take(n as int) =~= colors);
        proof {
            lemma_unique_colors(colors);
        }
        let mut counts: Vec<usize> = Vec::new();
        while counts.len() < palette.len()
            invariant
                palette@ == unique_colors(colors),
                slot@.len() == n,
                forall|t: int|
                    #![trigger slot@[t]]
                    0 <= t < n ==> slot@[t] < palette@.len() && palette@[slot@[t] as int]
                        == colors[t],
                counts@.len() <= palette@.len(),
                forall|k: int| 0 <= k < counts@.len() ==> counts@[k] == 0,
            decreases palette@.len() - counts@.len(),
        {
            counts.push(0);
        }
        let mut i: usize = 0;
        while i < indices.len()
            invariant
                n == table@.len() / 4,
                colors == table_colors(table@),
                palette@ == unique_colors(colors),
                palette@.no_duplicates(),
                slot@.len() == n,
                forall|t: int|
                    #![trigger slot@[t]]
                    0 <= t < n ==> slot@[t] < palette@.len() && palette@[slot@[t] as int]
                        == colors[t],
                forall|t: int| 0 <= t < indices@.len() ==> indices@[t] < n,
                i <= indices.len(),
                counts@.len() == palette@.len(),
                forall|k: int|
                    0 <= k < palette@.len() ==> counts@[k] == population(
                        indices@.take(i as int),
                        colors,
                        palette@[k],
                    ),
            decreases indices.len() - i,
        {
            let k = slot[indices[i]];
            let ghost pre = indices@.take(i as int);
            let ghost post = indices@.take(i + 1);
            assert(post.drop_last() =~= pre);
            assert(post.last() == indices@[i as int]);
            proof {
                lemma_population_bound(pre, colors, palette@[k as int]);
            }
            let v = counts[k] + 1;
            counts.set(k, v);
            assert forall|k2: int| 0 <= k2 < palette@.len() implies counts@[k2] == population(
                post,
                colors,
                palette@[k2],
            ) by {
                if k2 != k {
                    assert(palette@[k2] != palette@[k as int]);
                }
            }
            i += 1;
        }
        assert(indices@.take(indices@.len() as int) =~= indices@);
        let p = Palette { palette, pixel_counts: counts };
        proof {
            assert forall|t: int| 0 <= t < indices@.len() implies p.palette@.contains(
                colors[indices@[t] as int],
            ) by {
                let x = indices@[t] as int;
                assert(p.palette@[slot@[x] as int] == colors[x]);
            }
            lemma_total_population(p.palette@, indices@, colors);
            lemma_sum_counts(p.pixel_counts@, p.palette@, indices@, colors);
        }
        p
    }
}


impl Palette {
    /// Builds the palette of an image.
    ///
    /// The interesting pixels train a quantizer of `color_count` entries;
    /// then every pixel, background included, is classified into the table
    /// and counted. `quality` is the quantizer's sampling factor: 1 samples
    /// every pixel, larger values fewer (10 is a good default).
    pub fn new(image: &Image, color_count: usize, quality: i32) -> (p: Palette)
        requires
            1 <= color_count <= 512,
            1 <= quality <= 30,
        ensures
            p.wf(),
            p.is_quantized(
                neuquant_table(quality, color_count, training_bytes(image.pixels@)),
                quantized_indices(quality, color_count, image.pixels@),
            ),
            sum_of(p.pixel_counts@) == image.pixels@.len(),
    {
        let bytes = training_stream(&image.pixels);
        let quant = Quantizer::train(quality, color_count, bytes);
        let table = quant.color_map();
        let mut indices: Vec<usize> = Vec::new();
        let mut i: usize = 0;
        while i < image.pixels.len()
            invariant
                quant.quality() == quality,
                quant.size() == color_count,
                quant.training() == training_bytes(image.pixels@),
                i <= image.pixels@.len(),
                indices@ == quantized_indices(quality, color_count, image.pixels@).take(i as int),
                forall|t: int| 0 <= t < i ==> indices@[t] < color_count,
            decreases image.pixels@.len() - i,
        {
            indices.push(quant.index_of(&image.pixels[i]));
            assert(indices@ =~= quantized_indices(quality, color_count, image.pixels@).take(
                i + 1,
            ));
            i += 1;
        }
        assert(indices@ =~= quantized_indices(quality, color_count, image.pixels@));
        Palette::from_quantized(&table, &indices)
    }

    /// The number of pixels represented by `color`; zero when it is not in
    /// the palette.
    pub fn frequency_of(&self, color: &Rgb) -> (n: usize)
        requires
            self.wf(),
        ensures
            forall|k: int|
                0 <= k < self.palette@.len() && self.palette@[k] == *color ==> n
                    == self.pixel_counts@[k],
            !self.palette@.contains(*color) ==> n == 0,
    {
        match position_of(&self.palette, color) {
            Some(k) => {
                proof {
                    assert forall|j: int|
                        0 <= j < self.palette@.len() && self.palette@[j] == *color implies j
                        == k by {
                        if j != k {
                            assert(self.palette@[j] != self.palette@[k as int]);
                        }
                    }
                }
                self.pixel_counts[k]
            },
            None => 0,
        }
    }
}

/// Entry `a` comes before entry `b` when ordered by frequency: it has the
/// smaller count, or the same count and the smaller position.
pub open spec fn frequency_before(p: Palette, a: usize, b: usize) -> bool {
    ||| p.pixel_counts@[a as int] < p.pixel_counts@[b as int]
    ||| (p.pixel_counts@[a as int] == p.pixel_counts@[b as int] && a < b)
}

/// `order` lists every entry of `p` once, by increasing frequency, entries
/// of equal frequency in their order in `p`.
pub open spec fn is_frequency_order(p: Palette, order: Seq<usize>) -> bool {
    &&& order.len() == p.palette@.len()
    &&& order.no_duplicates()
    &&& forall|a: int| 0 <= a < order.len() ==> order[a] < p.palette@.len()
    &&& forall|a: int, b: int|
        0 <= a < b < order.len() ==> frequency_before(p, order[a], order[b])
}

proof fn lemma_sum_insert(s: Seq<usize>, pos: int, x: usize)
    requires
        0 <= pos <= s.len(),
    ensures
        sum_of(s.insert(pos, x)) == sum_of(s) + x,
    decreases s.len(),
{
    if pos == s.len() {
        assert(s.insert(pos, x).drop_last() =~= s);
    } else {
        assert(s.insert(pos, x).drop_last() =~= s.drop_last().insert(pos, x));
        lemma_sum_insert(s.drop_last(), pos, x);
    }
}

impl Palette {
    /// The same palette with its entries reordered by increasing frequency;
    /// entries of equal frequency keep their order, and every colour keeps
    /// its count.
    pub fn sort_by_frequency(&self) -> (q: Palette)
        requires
            self.wf(),
        ensures
            q.wf(),
            exists|order: Seq<usize>|
                {
                    &&& is_frequency_order(*self, order)
                    &&& q.palette@ == order.map_values(|k: usize| self.palette@[k as int])
                    &&& q.pixel_counts@ == order.map_values(|k: usize| self.pixel_counts@[k as int])
                },
    {
        let n = self.palette.len();
        let ghost counts = self.pixel_counts@;
        let mut order: Vec<usize> = Vec::new();
        let mut i: usize = 0;
        while i < n
            invariant
                n == self.palette@.len(),
                self.wf(),
                counts == self.pixel_counts@,
                i <= n,
                order@.len() == i,
                order@.no_duplicates(),
                forall|a: int| 0 <= a < i ==> order@[a] < i,
                forall|a: int, b: int|
                    0 <= a < b < i ==> frequency_before(*self, order@[a], order@[b]),
                sum_of(order@.map_values(|k: usize| counts[k as int])) == sum_of(
                    counts.take(i as int),
                ),
            decreases n - i,
        {
            let c = self.pixel_counts[i];
            let mut pos: usize = 0;
            while pos < order.len() && self.pixel_counts[order[pos]] <= c
                invariant
                    n == self.palette@.len(),
                    self.wf(),
                    i < n,
                    order@.len() == i,
                    forall|a: int| 0 <= a < i ==> order@[a] < i,
                    pos <= order@.len(),
                    c == self.pixel_counts@[i as int],
                    forall|a: int| 0 <= a < pos ==> self.pixel_counts@[order@[a] as int] <= c,
                decreases order@.len() - pos,
            {
                pos += 1;
            }
            let ghost before = order@;
            proof {
                let f = |k: usize| counts[k as int];
                assert(before.insert(pos as int, i).map_values(f) =~= before.map_values(f).insert(
                    pos as int,
                    f(i),
                ));
                lemma_sum_insert(before.map_values(f), pos as int, f(i));
                assert(counts.take(i + 1).drop_last() =~= counts.take(i as int));
            }
            order.insert(pos, i);
            proof {
                assert forall|a: int| 0 <= a < i + 1 implies order@[a] < i + 1 by {
                    if a > pos {
                        assert(order@[a] == before[a - 1]);
                    }
                }
                assert forall|a: int, b: int|
                    0 <= a < b < i + 1 implies frequency_before(*self, order@[a], order@[b]) by {
                    if b < pos {
                        assert(order@[a] == before[a] && order@[b] == before[b]);
                    } else if b == pos {
                        assert(order@[a] == before[a]);
                    } else if a < pos {
                        assert(order@[a] == before[a] && order@[b] == before[b - 1]);
                    } else if a == pos {
                        assert(order@[b] == before[b - 1]);
                        assert(frequency_before(*self, before[pos as int], before[b - 1]) || b - 1
                            == pos);
                    } else {
                        assert(order@[a] == before[a - 1] && order@[b] == before[b - 1]);
                    }
                }
                assert forall|a: int, b: int|
                    0 <= a < b < i + 1 implies order@[a] != order@[b] by {
                    assert(frequency_before(*self, order@[a], order@[b]));
                }
            }
            i += 1;
        }
        assert(counts.take(n as int) =~= counts);
        let mut colors: Vec<Rgb> = Vec::new();
        let mut freq: Vec<usize> = Vec::new();
        let mut j: usize = 0;
        while j < n
            invariant
                n == self.palette@.len(),
                self.wf(),
                order@.len() == n,
                forall|a: int| 0 <= a < n ==> order@[a] < n,
                j <= n,
                colors@ == order@.take(j as int).map_values(|k: usize| self.palette@[k as int]),
                freq@ == order@.take(j as int).map_values(|k: usize| self.pixel_counts@[k as int]),
            decreases n - j,
        {
            let k = order[j];
            colors.push(self.palette[k]);
            freq.push(self.pixel_counts[k]);
            assert(colors@ =~= order@.take(j + 1).map_values(|k: usize| self.palette@[k as int]));
            assert(freq@ =~= order@.take(j + 1).map_values(
                |k: usize| self.pixel_counts@[k as int],
            ));
            j += 1;
        }
        assert(order@.take(n as int) =~= order@);
        let q = Palette { palette: colors, pixel_counts: freq };
        proof {
            assert(q.pixel_counts@ =~= order@.map_values(|k: usize| counts[k as int]));
            assert forall|a: int, b: int|
                0 <= a < b < n implies q.palette@[a] != q.palette@[b] by {
                assert(order@[a] != order@[b]);
            }
            assert(is_frequency_order(*self, order@));
        }
        q
    }
}

/// The colours written `#RRGGBB` and separated by `", "`.
pub open spec fn hex_list(colors: Seq<Rgb>) -> Seq<char>
    decreases colors.len(),
{
    if colors.len() == 0 {
        seq![]
    } else if colors.len() == 1 {
        hex_code(colors[0])
    } else {
        hex_list(colors.drop_last()) + ", "@ + hex_code(colors.last())
    }
}

impl Palette {
    /// One line that lists the colours: `Color Palette { #RRGGBB, ... }`.
    pub fn to_string(&self) -> (s: String)
        ensures
            s@ == "Color Palette { "@ + hex_list(self.palette@) + " }"@,
    {
        let mut s = String::from_str("Color Palette { ");
        let mut i: usize = 0;
        while i < self.palette.len()
            invariant
                i <= self.palette@.len(),
                s@ == "Color Palette { "@ + hex_list(self.palette@.take(i as int)),
            decreases self.palette@.len() - i,
        {
            let ghost pre = s@;
            let ghost t = self.palette@.take(i + 1);
            assert(t.drop_last() =~= self.palette@.take(i as int));
            if i > 0 {
                s.append(", ");
            }
            let hex = self.palette[i].to_hex();
            s.append(hex.as_str());
            assert(s@ =~= "Color Palette { "@ + hex_list(t));
            i += 1;
        }
        assert(self.palette@.take(self.palette@.len() as int) =~= self.palette@);
        s.append(" }");
        s
    }
}

} // verus!
