//! 15-bit RGB colors and the 256-color palette.
//!
//! A `Color` holds three 5-bit channels and packs into a 16-bit word
//! (bits 14-10 red, 9-5 green, 4-0 blue, bit 15 unused).  A `Palette` is a
//! fixed grid of 256 colors, addressed as 16 sub-palettes of 16 colors, and
//! serializes to a flat 512-byte little-endian blob.

use crate::codec::hi_byte;
use crate::codec::join_le;
use crate::codec::le_word;
use crate::codec::lemma_le_word_bytes;
use crate::codec::lo_byte;
use crate::codec::split_hi;
use crate::codec::split_lo;
use vstd::prelude::*;

verus! {

/// Mathematical model of a `Color`: three channel values, each meant to
/// occupy 5 bits.
pub ghost struct ColorView {
    pub r: u8,
    pub g: u8,
    pub b: u8,
}

impl ColorView {
    /// Every stored channel fits in 5 bits.
    pub open spec fn wf(self) -> bool {
        self.r <= 31 && self.g <= 31 && self.b <= 31
    }
}

/// Clamps an 8-bit value into the 5-bit channel range [0, 31].
pub open spec fn clamp5(v: u8) -> u8 {
    if v <= 31 {
        v
    } else {
        31
    }
}

/// The packed 16-bit form of a color: bits 14-10 red, 9-5 green, 4-0 blue;
/// bit 15 is always zero for a well-formed color.
pub open spec fn rgb555_word(c: ColorView) -> u16 {
    ((c.r as u16) << 10) | ((c.g as u16) << 5) | (c.b as u16)
}

/// The color encoded in a 16-bit word; bit 15 is ignored.
pub open spec fn word_color(v: u16) -> ColorView {
    ColorView {
        r: (((v >> 10) & 0x1F) as u8),
        g: (((v >> 5) & 0x1F) as u8),
        b: ((v & 0x1F) as u8),
    }
}

/// The standard 5-to-8-bit channel expansion `(v << 3) | (v >> 2)`, which
/// maps 0 to 0 and 31 to 255.
pub open spec fn expand5(v: u8) -> u8 {
    (v << 3) | (v >> 2)
}

/// A color in RGB555 format: 5 bits per channel, each kept in [0, 31].
#[derive(Clone, Copy, Debug, PartialEq, Eq, Structural)]
pub struct Color {
    r: u8,
    g: u8,
    b: u8,
}

impl View for Color {
    type V = ColorView;

    closed spec fn view(&self) -> ColorView {
        ColorView { r: self.r, g: self.g, b: self.b }
    }
}

impl Color {
    /// Creates a new color with each channel independently clamped to [0, 31].
    pub fn new(r: u8, g: u8, b: u8) -> (c: Color)
        ensures
            c@ == (ColorView { r: clamp5(r), g: clamp5(g), b: clamp5(b) }),
            c@.wf(),
    {
        Color {
            r: if r <= 31 { r } else { 31 },
            g: if g <= 31 { g } else { 31 },
            b: if b <= 31 { b } else { 31 },
        }
    }

    /// Packs the color into its 16-bit RGB555 word.
    pub fn to_rgb555(&self) -> (v: u16)
        ensures
            v == rgb555_word(self@),
    {
        ((self.r as u16) << 10) | ((self.g as u16) << 5) | (self.b as u16)
    }

    /// Extracts a color from a 16-bit RGB555 word, ignoring bit 15.
    pub fn from_rgb555(value: u16) -> (c: Color)
        ensures
            c@ == word_color(value),
            c@.wf(),
    {
        proof {
            assert(((value >> 10) & 0x1F) <= 31 && ((value >> 5) & 0x1F) <= 31 && (value & 0x1F)
                <= 31) by (bit_vector);
        }
        Color {
            r: ((value >> 10) & 0x1F) as u8,
            g: ((value >> 5) & 0x1F) as u8,
            b: (value & 0x1F) as u8,
        }
    }

    /// Expands the three 5-bit channels to 8-bit values, preserving both
    /// endpoints (0 maps to 0 and 31 maps to 255).
    pub fn to_rgb888(&self) -> (rgb: (u8, u8, u8))
        ensures
            rgb == (expand5(self@.r), expand5(self@.g), expand5(self@.b)),
    {
        ((self.r << 3) | (self.r >> 2), (self.g << 3) | (self.g >> 2), (self.b << 3) | (self.b
            >> 2))
    }

    /// Creates a color from 8-bit channels by discarding the low 3 bits of
    /// each; this reduction is lossy and one-directional.
    pub fn from_rgb888(r: u8, g: u8, b: u8) -> (c: Color)
        ensures
            c@ == (ColorView { r: r >> 3, g: g >> 3, b: b >> 3 }),
            c@.wf(),
    {
        proof {
            assert((r >> 3) <= 31 && (g >> 3) <= 31 && (b >> 3) <= 31) by (bit_vector);
        }
        Color { r: r >> 3, g: g >> 3, b: b >> 3 }
    }

    /// Returns the three raw channel values, each in [0, 31].
    pub fn rgb(&self) -> (rgb: (u8, u8, u8))
        ensures
            rgb == (self@.r, self@.g, self@.b),
    {
        (self.r, self.g, self.b)
    }
}

impl Default for Color {
    /// The default color is black: all channels zero.
    fn default() -> (c: Color)
        ensures
            c@ == (ColorView { r: 0, g: 0, b: 0 }),
            c@.wf(),
    {
        Color::new(0, 0, 0)
    }
}

/// Extracting the channels of a packed word and repacking them restores the
/// word, provided bit 15 (which carries no color) is clear.
pub proof fn lemma_rgb555_word_round_trip(v: u16)
    by (bit_vector)
    requires
        v < 0x8000,
    ensures
        rgb555_word(word_color(v)) == v,
{
}

/// Packing a well-formed color into its RGB555 word and extracting it again
/// restores the color exactly.
pub proof fn lemma_rgb555_round_trip(c: ColorView)
    requires
        c.wf(),
    ensures
        word_color(rgb555_word(c)) == c,
{
    let r = c.r;
    let g = c.g;
    let b = c.b;
    let v = rgb555_word(c);
    assert((((((r as u16) << 10) | ((g as u16) << 5) | (b as u16)) >> 10) & 0x1F) == r as u16
        && (((((r as u16) << 10) | ((g as u16) << 5) | (b as u16)) >> 5) & 0x1F) == g as u16 && ((((
    r as u16) << 10) | ((g as u16) << 5) | (b as u16)) & 0x1F) == b as u16) by (bit_vector)
        requires
            r <= 31,
            g <= 31,
            b <= 31,
    ;
    assert(word_color(v).r == r && word_color(v).g == g && word_color(v).b == b);
}

/// Reducing any 8-bit channels to 5 bits yields a color that the RGB555
/// packing round-trips exactly: the first reduction is the only lossy step.
pub proof fn lemma_rgb888_reduction_stable(r: u8, g: u8, b: u8)
    ensures
        word_color(rgb555_word(ColorView { r: r >> 3, g: g >> 3, b: b >> 3 })) == (ColorView {
            r: r >> 3,
            g: g >> 3,
            b: b >> 3,
        }),
{
    assert((r >> 3) <= 31 && (g >> 3) <= 31 && (b >> 3) <= 31) by (bit_vector);
    lemma_rgb555_round_trip(ColorView { r: r >> 3, g: g >> 3, b: b >> 3 });
}

/// Every color extracted from a 16-bit word is well-formed: each channel is
/// masked to 5 bits.
pub proof fn lemma_word_color_wf(v: u16)
    ensures
        word_color(v).wf(),
{
    assert(((v >> 10) & 0x1F) <= 31 && ((v >> 5) & 0x1F) <= 31 && (v & 0x1F) <= 31) by (bit_vector);
}

/// The 5-to-8-bit expansion preserves both endpoints exactly.
pub proof fn lemma_expand5_endpoints()
    ensures
        expand5(0) == 0,
        expand5(31) == 255,
{
    assert(expand5(0) == 0 && expand5(31) == 255) by (bit_vector);
}

/// The flat cell index addressed by a sub-palette index and a color index,
/// each wrapped modulo 16.
pub open spec fn color_cell(palette_idx: u8, color_idx: u8) -> int {
    (palette_idx as int % 16) * 16 + (color_idx as int % 16)
}

/// The 512-byte serialized form of a sequence of colors: each color's RGB555
/// word in order, low byte first.
pub open spec fn palette_bytes(colors: Seq<ColorView>) -> Seq<u8> {
    Seq::new(
        colors.len() * 2,
        |i: int|
            if i % 2 == 0 {
                lo_byte(rgb555_word(colors[i / 2]))
            } else {
                hi_byte(rgb555_word(colors[i / 2]))
            },
    )
}

/// The colors decoded from a serialized palette blob: one color per
/// little-endian 16-bit word.
pub open spec fn palette_colors(bytes: Seq<u8>) -> Seq<ColorView> {
    Seq::new(bytes.len() / 2, |i: int| word_color(le_word(bytes[2 * i], bytes[2 * i + 1])))
}

/// The complete palette: 256 colors, organized as 16 sub-palettes of 16
/// colors each, stored sub-palette-major.
#[derive(Clone, Debug)]
pub struct Palette {
    colors: [Color; 256],
}

impl View for Palette {
    type V = Seq<ColorView>;

    closed spec fn view(&self) -> Seq<ColorView> {
        Seq::new(256, |i: int| self.colors[i]@)
    }
}

impl Palette {
    /// Every color held by the palette is well-formed.
    pub open spec fn wf(&self) -> bool {
        forall|i: int| 0 <= i < 256 ==> (#[trigger] self@[i]).wf()
    }

    /// Creates a palette with all 256 colors set to black.
    pub fn new() -> (p: Palette)
        ensures
            p@.len() == 256,
            forall|i: int| 0 <= i < 256 ==> p@[i] == (ColorView { r: 0, g: 0, b: 0 }),
            p.wf(),
    {
        let black = Color::new(0, 0, 0);
        Palette { colors: [black; 256] }
    }

    /// Gets the color at the given sub-palette and color indices; both
    /// indices are wrapped modulo 16, so any `u8` index is valid.
    pub fn get_color(&self, palette_idx: u8, color_idx: u8) -> (c: Color)
        ensures
            c@ == self@[color_cell(palette_idx, color_idx)],
    {
        let idx: usize = (palette_idx as usize % 16) * 16 + (color_idx as usize % 16);
        self.colors[idx]
    }

    /// Replaces the color at the given sub-palette and color indices; both
    /// indices are wrapped modulo 16, so any `u8` index is valid.
    pub fn set_color(&mut self, palette_idx: u8, color_idx: u8, color: Color)
        ensures
            final(self)@ == old(self)@.update(color_cell(palette_idx, color_idx), color@),
            old(self).wf() && color@.wf() ==> final(self).wf(),
    {
        let idx: usize = (palette_idx as usize % 16) * 16 + (color_idx as usize % 16);
        self.colors[idx] = color;
        proof {
            assert(final(self)@ =~= old(self)@.update(color_cell(palette_idx, color_idx), color@));
        }
    }

    /// Serializes the palette to its 512-byte blob: 256 RGB555 words in
    /// sub-palette-major, color-minor order, each stored low byte first.
    pub fn export_binary(&self) -> (data: Vec<u8>)
        ensures
            data@ == palette_bytes(self@),
    {
        let mut data: Vec<u8> = Vec::new();
        let mut i: usize = 0;
        while i < 256
            invariant
                0 <= i <= 256,
                data@.len() == 2 * i,
                forall|j: int| 0 <= j < 2 * i ==> data@[j] == palette_bytes(self@)[j],
            decreases 256 - i,
        {
            let word = self.colors[i].to_rgb555();
            data.push(split_lo(word));
            data.push(split_hi(word));
            proof {
                assert((2 * i as int) % 2 == 0 && (2 * i as int) / 2 == i as int && (2 * i as int
                    + 1) % 2 == 1 && (2 * i as int + 1) / 2 == i as int) by (nonlinear_arith);
            }
            i = i + 1;
        }
        proof {
            assert(data@ =~= palette_bytes(self@));
        }
        data
    }

    /// Deserializes a palette from a 512-byte blob, one little-endian RGB555
    /// word per color; any other input length yields no palette at all.
    pub fn import_binary(data: &[u8]) -> (r: Option<Palette>)
        ensures
            (r is Some) <==> data@.len() == 512,
            r matches Some(p) ==> p@ == palette_colors(data@) && p.wf(),
    {
        if data.len() != 512 {
            return None;
        }
        let mut palette = Palette::new();
        let mut i: usize = 0;
        while i < 256
            invariant
                0 <= i <= 256,
                data@.len() == 512,
                forall|j: int| 0 <= j < i ==> palette.colors@[j]@ == palette_colors(data@)[j],
            decreases 256 - i,
        {
            let word = join_le(data[2 * i], data[2 * i + 1]);
            palette.colors[i] = Color::from_rgb555(word);
            proof {
                assert((2 * i as int) < 512 && (2 * i as int + 1) < 512);
            }
            i = i + 1;
        }
        proof {
            assert(palette@ =~= palette_colors(data@));
            assert forall|j: int| 0 <= j < 256 implies (#[trigger] palette@[j]).wf() by {
                lemma_word_color_wf(le_word(data@[2 * j], data@[2 * j + 1]));
            }
        }
        Some(palette)
    }
}

impl Default for Palette {
    /// The default palette is all black.
    fn default() -> (p: Palette)
        ensures
            p@.len() == 256,
            forall|i: int| 0 <= i < 256 ==> p@[i] == (ColorView { r: 0, g: 0, b: 0 }),
            p.wf(),
    {
        Palette::new()
    }
}

impl PartialEq for Palette {
    /// Two palettes are equal when all 256 colors agree.
    fn eq(&self, other: &Palette) -> (r: bool) {
        let mut i: usize = 0;
        while i < 256
            invariant
                0 <= i <= 256,
                forall|j: int| 0 <= j < i ==> self@[j] == other@[j],
            decreases 256 - i,
        {
            if self.colors[i] != other.colors[i] {
                assert(self@[i as int] != other@[i as int]);
                return false;
            }
            i = i + 1;
        }
        proof {
            assert(self@ =~= other@);
        }
        true
    }
}

impl Eq for Palette {

}

impl vstd::std_specs::cmp::PartialEqSpecImpl for Palette {
    open spec fn obeys_eq_spec() -> bool {
        true
    }

    open spec fn eq_spec(&self, other: &Palette) -> bool {
        self@ == other@
    }
}

/// Serializing a palette and deserializing the blob restores every color
/// exactly, for any sequence of well-formed colors.
pub proof fn lemma_palette_export_import(colors: Seq<ColorView>)
    requires
        forall|i: int| 0 <= i < colors.len() ==> (#[trigger] colors[i]).wf(),
    ensures
        palette_colors(palette_bytes(colors)) == colors,
{
    let bytes = palette_bytes(colors);
    assert(bytes.len() == colors.len() * 2);
    assert(bytes.len() / 2 == colors.len()) by (nonlinear_arith)
        requires
            bytes.len() == colors.len() * 2,
    ;
    assert forall|i: int| 0 <= i < colors.len() implies palette_colors(bytes)[i] == colors[i] by {
        assert((2 * i) % 2 == 0 && (2 * i) / 2 == i && (2 * i + 1) % 2 == 1 && (2 * i + 1) / 2
            == i) by (nonlinear_arith);
        let w = rgb555_word(colors[i]);
        assert(bytes[2 * i] == lo_byte(w) && bytes[2 * i + 1] == hi_byte(w));
        lemma_le_word_bytes(w, 0, 0);
        lemma_rgb555_round_trip(colors[i]);
    }
    assert(palette_colors(bytes) =~= colors);
}

/// Deserializing any 512-byte blob and serializing the palette again
/// restores the blob, provided bit 7 of each high byte (the unused bit 15 of
/// each word, which decoding discards) is clear.
pub proof fn lemma_palette_import_export(bytes: Seq<u8>)
    requires
        bytes.len() % 2 == 0,
        forall|i: int| 0 <= i < bytes.len() && i % 2 == 1 ==> bytes[i] < 128,
    ensures
        palette_bytes(palette_colors(bytes)) == bytes,
{
    let colors = palette_colors(bytes);
    assert(colors.len() * 2 == bytes.len()) by (nonlinear_arith)
        requires
            colors.len() == bytes.len() / 2,
            bytes.len() % 2 == 0,
    ;
    assert forall|j: int| 0 <= j < bytes.len() implies palette_bytes(colors)[j] == bytes[j] by {
        let i = j / 2;
        assert(0 <= i < colors.len() && (2 * i == j || 2 * i + 1 == j) && (2 * i) % 2 == 0 && (2
            * i + 1) % 2 == 1 && (2 * i) / 2 == i && (2 * i + 1) / 2 == i) by (nonlinear_arith)
            requires
                0 <= j < bytes.len(),
                i == j / 2,
                colors.len() * 2 == bytes.len(),
        ;
        let lo = bytes[2 * i];
        let hi = bytes[2 * i + 1];
        let w = le_word(lo, hi);
        assert(colors[i] == word_color(w));
        lemma_le_word_bytes(0, lo, hi);
        assert(w < 0x8000) by (bit_vector)
            requires
                w == le_word(lo, hi),
                hi < 128,
        ;
        lemma_rgb555_word_round_trip(w);
        assert(palette_bytes(colors)[j] == bytes[j]);
    }
    assert(palette_bytes(colors) =~= bytes);
}

} // verus!
