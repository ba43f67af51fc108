//! Tilemap entries and tilemaps.
//!
//! A `TilemapEntry` is a 16-bit record referencing a tile with a palette
//! selection and flip flags.  Two incompatible hardware revisions of the
//! bit layout exist, chosen explicitly and never inferred from data:
//!
//! - Revision A: bits 0-9 tile index, 10-12 palette (3 bits), 13 h-flip,
//!   14 v-flip, 15 priority.
//! - Revision B: bits 0-9 tile index, 10 h-flip, 11 v-flip, 12-15 palette
//!   (4 bits), no priority bit.
//!
//! A `Tilemap` is a width x height grid (1-256 each) of entries of one
//! revision, stored row-major, serialized as consecutive little-endian
//! 16-bit words.

use crate::codec::hi_byte;
use crate::codec::join_le;
use crate::codec::le_word;
use crate::codec::lemma_le_word_bytes;
use crate::codec::lo_byte;
use crate::codec::split_hi;
use crate::codec::split_lo;
use vstd::prelude::*;

verus! {

/// The hardware revision of the tilemap entry encoding.  The two layouts
/// are mutually incompatible, so the revision is an explicit choice
/// threaded through construction, decoding, and encoding.
#[derive(Clone, Copy, Debug, PartialEq, Eq, Structural)]
pub enum EntryFormat {
    /// 3-bit palette index (bits 10-12) and an explicit priority bit (15).
    RevisionA,
    /// 4-bit palette index (bits 12-15) and no priority bit.
    RevisionB,
}

/// The largest palette index an entry of the given revision can hold.
pub open spec fn palette_limit(format: EntryFormat) -> u8 {
    match format {
        EntryFormat::RevisionA => 7,
        EntryFormat::RevisionB => 15,
    }
}

/// Clamps a tile index to [0, 1023], saturating at the boundary.
pub open spec fn clamp_tile(v: u16) -> u16 {
    if v <= 1023 {
        v
    } else {
        1023
    }
}

/// Clamps a palette index to the revision's range, saturating at the
/// boundary.
pub open spec fn clamp_palette(format: EntryFormat, v: u8) -> u8 {
    if v <= palette_limit(format) {
        v
    } else {
        palette_limit(format)
    }
}

/// Mathematical model of a tilemap entry.  In Revision B the priority
/// field is always false, since that revision has no priority bit.
pub ghost struct EntryView {
    pub format: EntryFormat,
    pub tile_index: u16,
    pub palette_idx: u8,
    pub h_flip: bool,
    pub v_flip: bool,
    pub priority: bool,
}

impl EntryView {
    /// The fields fit the revision's bit layout.
    pub open spec fn wf(self) -> bool {
        &&& self.tile_index <= 1023
        &&& self.palette_idx <= palette_limit(self.format)
        &&& (self.format == EntryFormat::RevisionB ==> !self.priority)
    }
}

/// The default entry of a revision: tile 0, palette 0, no flips, no
/// priority.
pub open spec fn default_entry(format: EntryFormat) -> EntryView {
    EntryView {
        format,
        tile_index: 0,
        palette_idx: 0,
        h_flip: false,
        v_flip: false,
        priority: false,
    }
}

/// The packed 16-bit form of an entry, per its revision's bit layout.
pub open spec fn entry_word(e: EntryView) -> u16 {
    match e.format {
        EntryFormat::RevisionA => (e.tile_index & 0x3FF) | (((e.palette_idx as u16) & 0x7) << 10)
            | (if e.h_flip {
                1u16 << 13
            } else {
                0u16
            }) | (if e.v_flip {
                1u16 << 14
            } else {
                0u16
            }) | (if e.priority {
                1u16 << 15
            } else {
                0u16
            }),
        EntryFormat::RevisionB => (e.tile_index & 0x3FF) | (if e.h_flip {
            1u16 << 10
        } else {
            0u16
        }) | (if e.v_flip {
            1u16 << 11
        } else {
            0u16
        }) | (((e.palette_idx as u16) & 0xF) << 12),
    }
}

/// The entry encoded in a 16-bit word, decoded per the given revision.
pub open spec fn word_entry(format: EntryFormat, v: u16) -> EntryView {
    match format {
        EntryFormat::RevisionA => EntryView {
            format,
            tile_index: v & 0x3FF,
            palette_idx: (((v >> 10) & 0x7) as u8),
            h_flip: ((v >> 13) & 1) == 1,
            v_flip: ((v >> 14) & 1) == 1,
            priority: ((v >> 15) & 1) == 1,
        },
        EntryFormat::RevisionB => EntryView {
            format,
            tile_index: v & 0x3FF,
            palette_idx: (((v >> 12) & 0xF) as u8),
            h_flip: ((v >> 10) & 1) == 1,
            v_flip: ((v >> 11) & 1) == 1,
            priority: false,
        },
    }
}

/// A tilemap entry: a clamped tile index, palette index, flip flags, and
/// (in Revision A) a priority flag, tagged with its encoding revision.
#[derive(Clone, Copy, Debug, PartialEq, Eq, Structural)]
pub struct TilemapEntry {
    format: EntryFormat,
    tile_index: u16,
    palette_idx: u8,
    h_flip: bool,
    v_flip: bool,
    priority: bool,
}

impl View for TilemapEntry {
    type V = EntryView;

    closed spec fn view(&self) -> EntryView {
        EntryView {
            format: self.format,
            tile_index: self.tile_index,
            palette_idx: self.palette_idx,
            h_flip: self.h_flip,
            v_flip: self.v_flip,
            priority: self.priority,
        }
    }
}

impl TilemapEntry {
    /// Creates an entry of the given revision.  The tile index is clamped
    /// to [0, 1023] and the palette index to the revision's range; under
    /// Revision B, which has no priority bit, the priority argument is
    /// ignored.
    pub fn new(
        format: EntryFormat,
        tile_index: u16,
        palette_idx: u8,
        h_flip: bool,
        v_flip: bool,
        priority: bool,
    ) -> (e: TilemapEntry)
        ensures
            e@ == (EntryView {
                format,
                tile_index: clamp_tile(tile_index),
                palette_idx: clamp_palette(format, palette_idx),
                h_flip,
                v_flip,
                priority: format == EntryFormat::RevisionA && priority,
            }),
            e@.wf(),
    {
        let ti: u16 = if tile_index <= 1023 {
            tile_index
        } else {
            1023
        };
        match format {
            EntryFormat::RevisionA => TilemapEntry {
                format,
                tile_index: ti,
                palette_idx: if palette_idx <= 7 {
                    palette_idx
                } else {
                    7
                },
                h_flip,
                v_flip,
                priority,
            },
            EntryFormat::RevisionB => TilemapEntry {
                format,
                tile_index: ti,
                palette_idx: if palette_idx <= 15 {
                    palette_idx
                } else {
                    15
                },
                h_flip,
                v_flip,
                priority: false,
            },
        }
    }

    /// The default entry of a revision: tile 0, palette 0, no flips, no
    /// priority.
    pub fn default_for(format: EntryFormat) -> (e: TilemapEntry)
        ensures
            e@ == default_entry(format),
            e@.wf(),
    {
        TilemapEntry {
            format,
            tile_index: 0,
            palette_idx: 0,
            h_flip: false,
            v_flip: false,
            priority: false,
        }
    }

    /// Packs the entry into its 16-bit word, per its revision's layout.
    pub fn to_u16(&self) -> (v: u16)
        ensures
            v == entry_word(self@),
    {
        match self.format {
            EntryFormat::RevisionA => (self.tile_index & 0x3FF) | (((self.palette_idx as u16)
                & 0x7) << 10) | (if self.h_flip {
                1u16 << 13
            } else {
                0u16
            }) | (if self.v_flip {
                1u16 << 14
            } else {
                0u16
            }) | (if self.priority {
                1u16 << 15
            } else {
                0u16
            }),
            EntryFormat::RevisionB => (self.tile_index & 0x3FF) | (if self.h_flip {
                1u16 << 10
            } else {
                0u16
            }) | (if self.v_flip {
                1u16 << 11
            } else {
                0u16
            }) | (((self.palette_idx as u16) & 0xF) << 12),
        }
    }

    /// Decodes an entry from a 16-bit word, per the given revision's
    /// layout.
    pub fn from_u16(format: EntryFormat, value: u16) -> (e: TilemapEntry)
        ensures
            e@ == word_entry(format, value),
            e@.wf(),
    {
        proof {
            assert((value & 0x3FF) <= 1023 && ((value >> 10) & 0x7) <= 7 && ((value >> 12) & 0xF)
                <= 15) by (bit_vector);
        }
        match format {
            EntryFormat::RevisionA => TilemapEntry {
                format,
                tile_index: value & 0x3FF,
                palette_idx: ((value >> 10) & 0x7) as u8,
                h_flip: ((value >> 13) & 1) == 1,
                v_flip: ((value >> 14) & 1) == 1,
                priority: ((value >> 15) & 1) == 1,
            },
            EntryFormat::RevisionB => TilemapEntry {
                format,
                tile_index: value & 0x3FF,
                palette_idx: ((value >> 12) & 0xF) as u8,
                h_flip: ((value >> 10) & 1) == 1,
                v_flip: ((value >> 11) & 1) == 1,
                priority: false,
            },
        }
    }

    /// Returns the encoding revision of the entry.
    pub fn format(&self) -> (f: EntryFormat)
        ensures
            f == self@.format,
    {
        self.format
    }

    /// Returns the tile index, in [0, 1023].
    pub fn tile_index(&self) -> (v: u16)
        ensures
            v == self@.tile_index,
    {
        self.tile_index
    }

    /// Returns the palette index, within the revision's range.
    pub fn palette_idx(&self) -> (v: u8)
        ensures
            v == self@.palette_idx,
    {
        self.palette_idx
    }

    /// Returns whether the tile is horizontally flipped.
    pub fn h_flip(&self) -> (v: bool)
        ensures
            v == self@.h_flip,
    {
        self.h_flip
    }

    /// Returns whether the tile is vertically flipped.
    pub fn v_flip(&self) -> (v: bool)
        ensures
            v == self@.v_flip,
    {
        self.v_flip
    }

    /// Returns the priority flag; always false under Revision B, which has
    /// no priority bit.
    pub fn priority(&self) -> (v: bool)
        ensures
            v == self@.priority,
    {
        self.priority
    }

    /// Sets the tile index, clamped to [0, 1023].
    pub fn set_tile_index(&mut self, tile_index: u16)
        ensures
            final(self)@ == (EntryView { tile_index: clamp_tile(tile_index), ..old(self)@ }),
            old(self)@.wf() ==> final(self)@.wf(),
    {
        self.tile_index = if tile_index <= 1023 {
            tile_index
        } else {
            1023
        };
    }

    /// Sets the palette index, clamped to the revision's range.
    pub fn set_palette_idx(&mut self, palette_idx: u8)
        ensures
            final(self)@ == (EntryView {
                palette_idx: clamp_palette(old(self)@.format, palette_idx),
                ..old(self)@
            }),
            old(self)@.wf() ==> final(self)@.wf(),
    {
        let limit: u8 = match self.format {
            EntryFormat::RevisionA => 7,
            EntryFormat::RevisionB => 15,
        };
        self.palette_idx = if palette_idx <= limit {
            palette_idx
        } else {
            limit
        };
    }

    /// Sets the horizontal flip flag.
    pub fn set_h_flip(&mut self, h_flip: bool)
        ensures
            final(self)@ == (EntryView { h_flip, ..old(self)@ }),
            old(self)@.wf() ==> final(self)@.wf(),
    {
        self.h_flip = h_flip;
    }

    /// Sets the vertical flip flag.
    pub fn set_v_flip(&mut self, v_flip: bool)
        ensures
            final(self)@ == (EntryView { v_flip, ..old(self)@ }),
            old(self)@.wf() ==> final(self)@.wf(),
    {
        self.v_flip = v_flip;
    }

    /// Sets the priority flag.  Under Revision B, which has no priority
    /// bit, the call is a silent no-op.
    pub fn set_priority(&mut self, priority: bool)
        ensures
            final(self)@ == (if old(self)@.format == EntryFormat::RevisionA {
                EntryView { priority, ..old(self)@ }
            } else {
                old(self)@
            }),
            old(self)@.wf() ==> final(self)@.wf(),
    {
        match self.format {
            EntryFormat::RevisionA => {
                self.priority = priority;
            },
            EntryFormat::RevisionB => {
            },
        }
    }
}

/// Packing a well-formed entry into its 16-bit word and decoding the word
/// under the same revision restores the entry exactly, for both revisions.
pub proof fn lemma_entry_word_round_trip(e: EntryView)
    requires
        e.wf(),
    ensures
        word_entry(e.format, entry_word(e)) == e,
{
    let t = e.tile_index;
    let p = e.palette_idx;
    let h = e.h_flip;
    let f = e.v_flip;
    let r = e.priority;
    match e.format {
        EntryFormat::RevisionA => {
            let v = entry_word(e);
            assert((v & 0x3FF) == t && (((v >> 10) & 0x7) as u8) == p && (((v >> 13) & 1) == 1)
                == h && (((v >> 14) & 1) == 1) == f && (((v >> 15) & 1) == 1) == r) by (bit_vector)
                requires
                    t <= 1023,
                    p <= 7,
                    v == (t & 0x3FF) | (((p as u16) & 0x7) << 10) | (if h {
                        1u16 << 13
                    } else {
                        0u16
                    }) | (if f {
                        1u16 << 14
                    } else {
                        0u16
                    }) | (if r {
                        1u16 << 15
                    } else {
                        0u16
                    }),
            ;
        },
        EntryFormat::RevisionB => {
            let v = entry_word(e);
            assert((v & 0x3FF) == t && (((v >> 12) & 0xF) as u8) == p && (((v >> 10) & 1) == 1)
                == h && (((v >> 11) & 1) == 1) == f) by (bit_vector)
                requires
                    t <= 1023,
                    p <= 15,
                    v == (t & 0x3FF) | (if h {
                        1u16 << 10
                    } else {
                        0u16
                    }) | (if f {
                        1u16 << 11
                    } else {
                        0u16
                    }) | (((p as u16) & 0xF) << 12),
            ;
        },
    }
}

/// Decoding any 16-bit word under a revision and re-encoding the entry
/// restores the word exactly: both layouts cover all 16 bits.
pub proof fn lemma_word_entry_round_trip(format: EntryFormat, v: u16)
    ensures
        entry_word(word_entry(format, v)) == v,
{
    match format {
        EntryFormat::RevisionA => {
            assert(((v & 0x3FF) & 0x3FF) | ((((((v >> 10) & 0x7) as u8) as u16) & 0x7) << 10) | (
            if ((v >> 13) & 1) == 1 {
                1u16 << 13
            } else {
                0u16
            }) | (if ((v >> 14) & 1) == 1 {
                1u16 << 14
            } else {
                0u16
            }) | (if ((v >> 15) & 1) == 1 {
                1u16 << 15
            } else {
                0u16
            }) == v) by (bit_vector);
        },
        EntryFormat::RevisionB => {
            assert(((v & 0x3FF) & 0x3FF) | (if ((v >> 10) & 1) == 1 {
                1u16 << 10
            } else {
                0u16
            }) | (if ((v >> 11) & 1) == 1 {
                1u16 << 11
            } else {
                0u16
            }) | ((((((v >> 12) & 0xF) as u8) as u16) & 0xF) << 12) == v) by (bit_vector);
        },
    }
}

/// Every entry decoded from a 16-bit word is well-formed: the extracted
/// fields are masked to their bit widths.
pub proof fn lemma_word_entry_wf(format: EntryFormat, v: u16)
    ensures
        word_entry(format, v).wf(),
{
    assert((v & 0x3FF) <= 1023 && ((v >> 10) & 0x7) <= 7 && ((v >> 12) & 0xF) <= 15) by (bit_vector);
}

/// The element-wise model of a sequence of entries.
pub open spec fn deep_entries(s: Seq<TilemapEntry>) -> Seq<EntryView> {
    Seq::new(s.len(), |i: int| s[i]@)
}

/// Mathematical model of a tilemap: one revision, clamped dimensions, and
/// a row-major sequence of exactly `width * height` entries.
pub ghost struct TilemapView {
    pub format: EntryFormat,
    pub width: usize,
    pub height: usize,
    pub entries: Seq<EntryView>,
}

/// The cell of a row-major grid at column `x` of row `y`.
pub open spec fn grid_cell(entries: Seq<EntryView>, width: usize, x: int, y: int) -> EntryView {
    entries[y * width + x]
}

/// The entry of a tilemap at column `x` of row `y`.
pub open spec fn entry_at(m: TilemapView, x: int, y: int) -> EntryView {
    grid_cell(m.entries, m.width, x, y)
}

/// What a resize leaves at `(x, y)`: the old entry where the coordinate
/// lies within the old bounds, the default entry otherwise.
pub open spec fn resized_cell(m: TilemapView, x: int, y: int) -> EntryView {
    if x < m.width && y < m.height {
        entry_at(m, x, y)
    } else {
        default_entry(m.format)
    }
}

/// Clamps a tilemap dimension into [1, 256], saturating at the boundary.
pub open spec fn clamp_dim(v: usize) -> usize {
    if v < 1 {
        1
    } else if v > 256 {
        256
    } else {
        v
    }
}

/// The serialized form of a sequence of entries: each entry's 16-bit word
/// in order, low byte first.
pub open spec fn tilemap_bytes(entries: Seq<EntryView>) -> Seq<u8> {
    Seq::new(
        entries.len() * 2,
        |i: int|
            if i % 2 == 0 {
                lo_byte(entry_word(entries[i / 2]))
            } else {
                hi_byte(entry_word(entries[i / 2]))
            },
    )
}

/// The entries decoded from a serialized tilemap blob under the given
/// revision: one entry per little-endian 16-bit word.
pub open spec fn tilemap_entries(format: EntryFormat, bytes: Seq<u8>) -> Seq<EntryView> {
    Seq::new(
        bytes.len() / 2,
        |i: int| word_entry(format, le_word(bytes[2 * i], bytes[2 * i + 1])),
    )
}

/// Row-major indexing stays within a grid of up to 256 x 256 cells.
proof fn lemma_grid_index_small(width: int, height: int, x: int, y: int)
    by (nonlinear_arith)
    requires
        0 <= x < width,
        0 <= y < height,
        width <= 256,
        height <= 256,
    ensures
        0 <= y * width + x < width * height,
        width * height <= 65536,
{
}

/// Row-major indexing is injective on grid coordinates.
proof fn lemma_grid_index_injective(width: int, x1: int, y1: int, x2: int, y2: int)
    by (nonlinear_arith)
    requires
        0 <= x1 < width,
        0 <= x2 < width,
        0 <= y1,
        0 <= y2,
        y1 * width + x1 == y2 * width + x2,
    ensures
        x1 == x2,
        y1 == y2,
{
}

/// A tilemap: a grid of 1-256 by 1-256 entries of a single revision,
/// stored row-major.
#[derive(Clone, Debug)]
pub struct Tilemap {
    format: EntryFormat,
    width: usize,
    height: usize,
    entries: Vec<TilemapEntry>,
}

impl View for Tilemap {
    type V = TilemapView;

    closed spec fn view(&self) -> TilemapView {
        TilemapView {
            format: self.format,
            width: self.width,
            height: self.height,
            entries: deep_entries(self.entries@),
        }
    }
}

impl Tilemap {
    /// The dimensions are clamped, the grid holds exactly one entry per
    /// cell, and every entry is well-formed and of the tilemap's revision.
    pub open spec fn wf(&self) -> bool {
        &&& 1 <= self@.width <= 256
        &&& 1 <= self@.height <= 256
        &&& self@.entries.len() == self@.width * self@.height
        &&& forall|i: int|
            0 <= i < self@.entries.len() ==> (#[trigger] self@.entries[i]).wf()
                && self@.entries[i].format == self@.format
    }

    /// Creates a tilemap of the given revision with both dimensions
    /// clamped into [1, 256] and every cell set to the default entry.
    pub fn new(format: EntryFormat, width: usize, height: usize) -> (m: Tilemap)
        ensures
            m@.format == format,
            m@.width == clamp_dim(width),
            m@.height == clamp_dim(height),
            forall|i: int|
                0 <= i < m@.entries.len() ==> (#[trigger] m@.entries[i]) == default_entry(format),
            m.wf(),
    {
        let w: usize = if width < 1 {
            1
        } else if width > 256 {
            256
        } else {
            width
        };
        let h: usize = if height < 1 {
            1
        } else if height > 256 {
            256
        } else {
            height
        };
        proof {
            assert(w * h <= 65536) by (nonlinear_arith)
                requires
                    w <= 256,
                    h <= 256,
            ;
        }
        let n: usize = w * h;
        let d = TilemapEntry::default_for(format);
        let mut entries: Vec<TilemapEntry> = Vec::new();
        let mut i: usize = 0;
        while i < n
            invariant
                0 <= i <= n,
                entries@.len() == i,
                d@ == default_entry(format),
                forall|j: int| 0 <= j < i ==> (#[trigger] entries@[j])@ == default_entry(format),
            decreases n - i,
        {
            entries.push(d);
            i = i + 1;
        }
        Tilemap { format, width: w, height: h, entries }
    }

    /// Returns the width of the tilemap in tiles.
    pub fn width(&self) -> (w: usize)
        ensures
            w == self@.width,
    {
        self.width
    }

    /// Returns the height of the tilemap in tiles.
    pub fn height(&self) -> (h: usize)
        ensures
            h == self@.height,
    {
        self.height
    }

    /// Returns the entry at `(x, y)`, or nothing at all if the coordinate
    /// lies outside the grid; an absent result is distinguishable from any
    /// real entry.
    pub fn get_entry(&self, x: usize, y: usize) -> (r: Option<TilemapEntry>)
        requires
            self.wf(),
        ensures
            (r is Some) <==> (x < self@.width && y < self@.height),
            r matches Some(e) ==> e@ == entry_at(self@, x as int, y as int),
    {
        if x < self.width && y < self.height {
            proof {
                lemma_grid_index_small(
                    self@.width as int,
                    self@.height as int,
                    x as int,
                    y as int,
                );
            }
            Some(self.entries[y * self.width + x])
        } else {
            None
        }
    }

    /// Replaces the entry at `(x, y)`.  A coordinate outside the grid, or
    /// an entry of the other revision (the two layouts must never mix),
    /// makes the call a silent no-op.
    pub fn set_entry(&mut self, x: usize, y: usize, entry: TilemapEntry)
        requires
            old(self).wf(),
            entry@.wf(),
        ensures
            x < old(self)@.width && y < old(self)@.height && entry@.format == old(self)@.format
                ==> final(self)@ == (TilemapView {
                entries: old(self)@.entries.update(
                    y as int * old(self)@.width + x as int,
                    entry@,
                ),
                ..old(self)@
            }),
            !(x < old(self)@.width && y < old(self)@.height && entry@.format == old(self)@.format)
                ==> final(self)@ == old(self)@,
            final(self).wf(),
    {
        if x < self.width && y < self.height && entry.format() == self.format {
            proof {
                lemma_grid_index_small(
                    self@.width as int,
                    self@.height as int,
                    x as int,
                    y as int,
                );
            }
            let idx: usize = y * self.width + x;
            self.entries.set(idx, entry);
            proof {
                assert(self@.entries =~= old(self)@.entries.update(idx as int, entry@));
                assert forall|i: int| 0 <= i < self@.entries.len() implies (#[trigger] self@
                    .entries[i]).wf() && self@.entries[i].format == self@.format by {
                    assert(old(self)@.entries[i].wf() && old(self)@.entries[i].format == old(
                        self,
                    )@.format);
                }
            }
        }
    }

    /// Serializes the tilemap row-major, two bytes per entry, low byte
    /// first, per the tilemap's revision.
    pub fn export_binary(&self) -> (data: Vec<u8>)
        ensures
            data@ == tilemap_bytes(self@.entries),
    {
        let n: usize = self.entries.len();
        let mut data: Vec<u8> = Vec::new();
        let mut i: usize = 0;
        while i < n
            invariant
                0 <= i <= n,
                n == self@.entries.len(),
                data@.len() == 2 * i,
                forall|j: int| 0 <= j < 2 * i ==> data@[j] == tilemap_bytes(self@.entries)[j],
            decreases n - i,
        {
            let word = self.entries[i].to_u16();
            data.push(split_lo(word));
            data.push(split_hi(word));
            proof {
                assert((2 * i as int) % 2 == 0 && (2 * i as int) / 2 == i as int && (2 * i as int
                    + 1) % 2 == 1 && (2 * i as int + 1) / 2 == i as int) by (nonlinear_arith);
            }
            i = i + 1;
        }
        proof {
            assert(data@ =~= tilemap_bytes(self@.entries));
        }
        data
    }

    /// Deserializes a tilemap of the given revision and dimensions (each
    /// clamped into [1, 256]).  The input must hold exactly two bytes per
    /// cell of the clamped grid; any other length yields no tilemap at
    /// all.
    pub fn import_binary(format: EntryFormat, data: &[u8], width: usize, height: usize) -> (r:
        Option<Tilemap>)
        ensures
            (r is Some) <==> data@.len() == clamp_dim(width) * clamp_dim(height) * 2,
            r matches Some(m) ==> {
                &&& m@.format == format
                &&& m@.width == clamp_dim(width)
                &&& m@.height == clamp_dim(height)
                &&& m@.entries == tilemap_entries(format, data@)
                &&& m.wf()
            },
    {
        let w: usize = if width < 1 {
            1
        } else if width > 256 {
            256
        } else {
            width
        };
        let h: usize = if height < 1 {
            1
        } else if height > 256 {
            256
        } else {
            height
        };
        proof {
            assert(w * h <= 65536) by (nonlinear_arith)
                requires
                    w <= 256,
                    h <= 256,
            ;
        }
        let n: usize = w * h;
        let expected: usize = n * 2;
        if data.len() != expected {
            return None;
        }
        let mut entries: Vec<TilemapEntry> = Vec::new();
        let mut i: usize = 0;
        while i < n
            invariant
                0 <= i <= n,
                n <= 65536,
                entries@.len() == i,
                data@.len() == 2 * n,
                forall|j: int|
                    0 <= j < i ==> (#[trigger] entries@[j])@ == tilemap_entries(format, data@)[j],
            decreases n - i,
        {
            proof {
                assert((2 * i as int) / 2 == i as int && 2 * i as int + 1 < 2 * n as int) by (nonlinear_arith)
                    requires
                        0 <= i < n,
                ;
            }
            let word = join_le(data[2 * i], data[2 * i + 1]);
            entries.push(TilemapEntry::from_u16(format, word));
            i = i + 1;
        }
        let m = Tilemap { format, width: w, height: h, entries };
        proof {
            assert(2 * n as int == data@.len() && (2 * n as int) / 2 == n as int);
            assert(m@.entries =~= tilemap_entries(format, data@));
            assert forall|j: int| 0 <= j < m@.entries.len() implies (#[trigger] m@.entries[j]).wf()
                && m@.entries[j].format == format by {
                lemma_word_entry_wf(format, le_word(data@[2 * j], data@[2 * j + 1]));
            }
        }
        Some(m)
    }

    /// Resizes the tilemap, clamping both new dimensions into [1, 256].
    /// Entries whose coordinate lies within both the old and new bounds
    /// are preserved; entries outside the new bounds are permanently
    /// discarded, and newly in-bounds cells get the default entry.
    pub fn resize(&mut self, new_width: usize, new_height: usize)
        requires
            old(self).wf(),
        ensures
            final(self)@.format == old(self)@.format,
            final(self)@.width == clamp_dim(new_width),
            final(self)@.height == clamp_dim(new_height),
            forall|x: int, y: int|
                0 <= x < final(self)@.width && 0 <= y < final(self)@.height ==> #[trigger] entry_at(
                    final(self)@,
                    x,
                    y,
                ) == resized_cell(old(self)@, x, y),
            final(self).wf(),
    {
        let nw: usize = if new_width < 1 {
            1
        } else if new_width > 256 {
            256
        } else {
            new_width
        };
        let nh: usize = if new_height < 1 {
            1
        } else if new_height > 256 {
            256
        } else {
            new_height
        };
        if nw == self.width && nh == self.height {
            proof {
                assert forall|x: int, y: int|
                    0 <= x < self@.width && 0 <= y < self@.height implies #[trigger] entry_at(
                    self@,
                    x,
                    y,
                ) == resized_cell(old(self)@, x, y) by {
                }
            }
            return ;
        }
        proof {
            assert(nw * nh <= 65536) by (nonlinear_arith)
                requires
                    nw <= 256,
                    nh <= 256,
            ;
        }
        let n: usize = nw * nh;
        let d = TilemapEntry::default_for(self.format);
        let mut new_entries: Vec<TilemapEntry> = Vec::new();
        let mut i: usize = 0;
        while i < n
            invariant
                0 <= i <= n,
                new_entries@.len() == i,
                d@ == default_entry(self@.format),
                forall|j: int|
                    0 <= j < i ==> (#[trigger] new_entries@[j])@ == default_entry(self@.format),
            decreases n - i,
        {
            new_entries.push(d);
            i = i + 1;
        }
        let min_w: usize = if self.width < nw {
            self.width
        } else {
            nw
        };
        let min_h: usize = if self.height < nh {
            self.height
        } else {
            nh
        };
        proof {
            assert forall|x2: int, y2: int| 0 <= x2 < nw && 0 <= y2 < nh implies #[trigger]
                grid_cell(deep_entries(new_entries@), nw, x2, y2) == default_entry(self@.format) by {
                lemma_grid_index_small(nw as int, nh as int, x2, y2);
            }
        }
        let mut y: usize = 0;
        while y < min_h
            invariant
                0 <= y <= min_h,
                min_w <= nw,
                min_w <= self@.width,
                min_h <= nh,
                min_h <= self@.height,
                self.wf(),
                1 <= nw <= 256,
                1 <= nh <= 256,
                n == nw * nh,
                new_entries@.len() == n,
                forall|x2: int, y2: int|
                    0 <= x2 < nw && 0 <= y2 < nh ==> #[trigger] grid_cell(
                        deep_entries(new_entries@),
                        nw,
                        x2,
                        y2,
                    ) == (if x2 < min_w && y2 < y {
                        entry_at(self@, x2, y2)
                    } else {
                        default_entry(self@.format)
                    }),
            decreases min_h - y,
        {
            let mut x: usize = 0;
            while x < min_w
                invariant
                    0 <= y < min_h,
                    0 <= x <= min_w,
                    min_w <= nw,
                    min_w <= self@.width,
                    min_h <= nh,
                    min_h <= self@.height,
                    self.wf(),
                    1 <= nw <= 256,
                    1 <= nh <= 256,
                    n == nw * nh,
                    new_entries@.len() == n,
                    forall|x2: int, y2: int|
                        0 <= x2 < nw && 0 <= y2 < nh ==> #[trigger] grid_cell(
                            deep_entries(new_entries@),
                            nw,
                            x2,
                            y2,
                        ) == (if (x2 < min_w && y2 < y) || (y2 == y && x2 < x) {
                            entry_at(self@, x2, y2)
                        } else {
                            default_entry(self@.format)
                        }),
                decreases min_w - x,
            {
                proof {
                    lemma_grid_index_small(
                        self@.width as int,
                        self@.height as int,
                        x as int,
                        y as int,
                    );
                    lemma_grid_index_small(nw as int, nh as int, x as int, y as int);
                }
                let src: usize = y * self.width + x;
                let dst: usize = y * nw + x;
                let e = self.entries[src];
                let ghost pre = new_entries@;
                new_entries.set(dst, e);
                proof {
                    assert(new_entries@ == pre.update(dst as int, e));
                    assert forall|x2: int, y2: int|
                        0 <= x2 < nw && 0 <= y2 < nh implies #[trigger] grid_cell(
                        deep_entries(new_entries@),
                        nw,
                        x2,
                        y2,
                    ) == (if (x2 < min_w && y2 < y) || (y2 == y && x2 < x + 1) {
                        entry_at(self@, x2, y2)
                    } else {
                        default_entry(self@.format)
                    }) by {
                        lemma_grid_index_small(nw as int, nh as int, x2, y2);
                        if y2 * nw + x2 == dst as int {
                            lemma_grid_index_injective(nw as int, x2, y2, x as int, y as int);
                            assert(deep_entries(new_entries@)[dst as int] == e@);
                            assert(e@ == entry_at(self@, x2, y2));
                        } else {
                            assert(deep_entries(new_entries@)[y2 * nw + x2] == deep_entries(
                                pre,
                            )[y2 * nw + x2]);
                            assert(grid_cell(deep_entries(pre), nw, x2, y2) == (if (x2 < min_w
                                && y2 < y) || (y2 == y && x2 < x) {
                                entry_at(self@, x2, y2)
                            } else {
                                default_entry(self@.format)
                            }));
                            assert(!(y2 == y && x2 == x as int));
                        }
                    }
                }
                x = x + 1;
            }
            y = y + 1;
        }
        self.width = nw;
        self.height = nh;
        self.entries = new_entries;
        proof {
            assert forall|x: int, y: int|
                0 <= x < self@.width && 0 <= y < self@.height implies #[trigger] entry_at(
                self@,
                x,
                y,
            ) == resized_cell(old(self)@, x, y) by {
                lemma_grid_index_small(nw as int, nh as int, x, y);
                if x < min_w && y < min_h {
                    lemma_grid_index_small(
                        old(self)@.width as int,
                        old(self)@.height as int,
                        x,
                        y,
                    );
                }
            }
            assert forall|i2: int| 0 <= i2 < self@.entries.len() implies (#[trigger] self@
                .entries[i2]).wf() && self@.entries[i2].format == self@.format by {
                let x2 = i2 % nw as int;
                let y2 = i2 / nw as int;
                assert(0 <= x2 < nw && 0 <= y2 < nh && i2 == y2 * nw + x2) by (nonlinear_arith)
                    requires
                        0 <= i2 < nw * nh,
                        1 <= nw,
                        1 <= nh,
                        x2 == i2 % nw as int,
                        y2 == i2 / nw as int,
                ;
                assert(grid_cell(self@.entries, nw, x2, y2) == self@.entries[i2]);
                if x2 < min_w && y2 < min_h {
                    lemma_grid_index_small(
                        old(self)@.width as int,
                        old(self)@.height as int,
                        x2,
                        y2,
                    );
                }
            }
        }
    }

    /// Resets every cell to the default entry of the tilemap's revision.
    pub fn clear(&mut self)
        requires
            old(self).wf(),
        ensures
            final(self)@.format == old(self)@.format,
            final(self)@.width == old(self)@.width,
            final(self)@.height == old(self)@.height,
            final(self)@.entries.len() == old(self)@.entries.len(),
            forall|i: int|
                0 <= i < final(self)@.entries.len() ==> (#[trigger] final(self)@.entries[i])
                    == default_entry(old(self)@.format),
            final(self).wf(),
    {
        let d = TilemapEntry::default_for(self.format);
        let n: usize = self.entries.len();
        let mut i: usize = 0;
        while i < n
            invariant
                0 <= i <= n,
                self@.format == old(self)@.format,
                self@.width == old(self)@.width,
                self@.height == old(self)@.height,
                self@.entries.len() == old(self)@.entries.len(),
                n == self@.entries.len(),
                d@ == default_entry(old(self)@.format),
                forall|j: int|
                    0 <= j < i ==> (#[trigger] self@.entries[j]) == default_entry(
                        old(self)@.format,
                    ),
            decreases n - i,
        {
            let ghost pre = self@;
            self.entries.set(i, d);
            proof {
                assert forall|j: int| 0 <= j < i + 1 implies (#[trigger] self@.entries[j])
                    == default_entry(old(self)@.format) by {
                    if j < i {
                        assert(pre.entries[j] == default_entry(old(self)@.format));
                        assert(self@.entries[j] == pre.entries[j]);
                    } else {
                        assert(self@.entries[j] == d@);
                    }
                }
            }
            i = i + 1;
        }
    }

    /// Sets every cell to the given entry.  An entry of the other revision
    /// (the two layouts must never mix) makes the call a silent no-op.
    pub fn fill(&mut self, entry: TilemapEntry)
        requires
            old(self).wf(),
            entry@.wf(),
        ensures
            final(self)@.format == old(self)@.format,
            final(self)@.width == old(self)@.width,
            final(self)@.height == old(self)@.height,
            final(self)@.entries.len() == old(self)@.entries.len(),
            entry@.format == old(self)@.format ==> forall|i: int|
                0 <= i < final(self)@.entries.len() ==> (#[trigger] final(self)@.entries[i])
                    == entry@,
            entry@.format != old(self)@.format ==> final(self)@ == old(self)@,
            final(self).wf(),
    {
        if entry.format() == self.format {
            let n: usize = self.entries.len();
            let mut i: usize = 0;
            while i < n
                invariant
                    0 <= i <= n,
                    self@.format == old(self)@.format,
                    self@.width == old(self)@.width,
                    self@.height == old(self)@.height,
                    self@.entries.len() == old(self)@.entries.len(),
                    n == self@.entries.len(),
                    entry@.format == old(self)@.format,
                    entry@.wf(),
                    forall|j: int| 0 <= j < i ==> (#[trigger] self@.entries[j]) == entry@,
                decreases n - i,
            {
                let ghost pre = self@;
                self.entries.set(i, entry);
                proof {
                    assert forall|j: int| 0 <= j < i + 1 implies (#[trigger] self@.entries[j])
                        == entry@ by {
                        if j < i {
                            assert(pre.entries[j] == entry@);
                            assert(self@.entries[j] == pre.entries[j]);
                        } else {
                            assert(self@.entries[j] == entry@);
                        }
                    }
                }
                i = i + 1;
            }
        }
    }
}

impl PartialEq for Tilemap {
    /// Two tilemaps are equal when their revision, dimensions, and every
    /// entry agree.
    fn eq(&self, other: &Tilemap) -> (r: bool) {
        if self.format != other.format {
            proof {
                assert(self@.format != other@.format);
            }
            return false;
        }
        if self.width != other.width {
            proof {
                assert(self@.width != other@.width);
            }
            return false;
        }
        if self.height != other.height {
            proof {
                assert(self@.height != other@.height);
            }
            return false;
        }
        if self.entries.len() != other.entries.len() {
            proof {
                assert(self@.entries.len() != other@.entries.len());
            }
            return false;
        }
        let n: usize = self.entries.len();
        let mut i: usize = 0;
        while i < n
            invariant
                0 <= i <= n,
                n == self@.entries.len(),
                n == other@.entries.len(),
                forall|j: int| 0 <= j < i ==> self@.entries[j] == other@.entries[j],
            decreases n - i,
        {
            if self.entries[i] != other.entries[i] {
                assert(self@.entries[i as int] != other@.entries[i as int]);
                return false;
            }
            i = i + 1;
        }
        proof {
            assert(self@.entries =~= other@.entries);
        }
        true
    }
}

impl Eq for Tilemap {

}

impl vstd::std_specs::cmp::PartialEqSpecImpl for Tilemap {
    open spec fn obeys_eq_spec() -> bool {
        true
    }

    open spec fn eq_spec(&self, other: &Tilemap) -> bool {
        self@ == other@
    }
}

/// Serializing entries of one revision and decoding the blob under the
/// same revision restores every entry exactly.
pub proof fn lemma_tilemap_export_import(format: EntryFormat, entries: Seq<EntryView>)
    requires
        forall|i: int|
            0 <= i < entries.len() ==> (#[trigger] entries[i]).wf() && entries[i].format == format,
    ensures
        tilemap_entries(format, tilemap_bytes(entries)) == entries,
{
    let bytes = tilemap_bytes(entries);
    assert(bytes.len() / 2 == entries.len()) by (nonlinear_arith)
        requires
            bytes.len() == entries.len() * 2,
    ;
    assert forall|i: int| 0 <= i < entries.len() implies tilemap_entries(format, bytes)[i]
        == entries[i] by {
        assert((2 * i) % 2 == 0 && (2 * i) / 2 == i && (2 * i + 1) % 2 == 1 && (2 * i + 1) / 2
            == i) by (nonlinear_arith);
        let w = entry_word(entries[i]);
        assert(bytes[2 * i] == lo_byte(w) && bytes[2 * i + 1] == hi_byte(w));
        lemma_le_word_bytes(w, 0, 0);
        lemma_entry_word_round_trip(entries[i]);
    }
    assert(tilemap_entries(format, bytes) =~= entries);
}

/// Decoding any even-length blob under a revision and serializing the
/// entries again restores the blob exactly: both layouts cover all 16
/// bits of every word.
pub proof fn lemma_tilemap_import_export(format: EntryFormat, bytes: Seq<u8>)
    requires
        bytes.len() % 2 == 0,
    ensures
        tilemap_bytes(tilemap_entries(format, bytes)) == bytes,
{
    let entries = tilemap_entries(format, bytes);
    assert(entries.len() * 2 == bytes.len()) by (nonlinear_arith)
        requires
            entries.len() == bytes.len() / 2,
            bytes.len() % 2 == 0,
    ;
    assert forall|j: int| 0 <= j < bytes.len() implies tilemap_bytes(entries)[j] == bytes[j] by {
        let i = j / 2;
        assert(0 <= i < entries.len() && (2 * i == j || 2 * i + 1 == j) && (2 * i) % 2 == 0 && (2
            * i + 1) % 2 == 1 && (2 * i) / 2 == i && (2 * i + 1) / 2 == i) by (nonlinear_arith)
            requires
                0 <= j < bytes.len(),
                i == j / 2,
                entries.len() * 2 == bytes.len(),
        ;
        let lo = bytes[2 * i];
        let hi = bytes[2 * i + 1];
        let w = le_word(lo, hi);
        assert(entries[i] == word_entry(format, w));
        lemma_le_word_bytes(0, lo, hi);
        lemma_word_entry_round_trip(format, w);
        assert(tilemap_bytes(entries)[j] == bytes[j]);
    }
    assert(tilemap_bytes(entries) =~= bytes);
}

} // verus!
