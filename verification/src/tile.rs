//! 8x8 tiles of 4-bit color indices and their 4bpp planar encoding.
//!
//! A tile serializes to 32 bytes laid out as four consecutive 8-byte bit
//! planes (plane 0 holds the least significant bit of each color index,
//! plane 3 the most significant).  Within a plane, each byte is one pixel
//! row, bit 7 being the leftmost pixel.

use vstd::prelude::*;

verus! {

/// Bit `k` of the byte `p`, as 0 or 1.
pub open spec fn bit_of(p: u8, k: u8) -> u8 {
    (p >> k) & 1
}

/// One row byte of one bit plane: bit `7 - x` of the result is bit `plane`
/// of the pixel at column `x`, so bit 7 corresponds to the leftmost pixel.
pub open spec fn row_byte(p0: u8, p1: u8, p2: u8, p3: u8, p4: u8, p5: u8, p6: u8, p7: u8, plane: u8) -> u8 {
    (bit_of(p0, plane) << 7) | (bit_of(p1, plane) << 6) | (bit_of(p2, plane) << 5) | (bit_of(
        p3,
        plane,
    ) << 4) | (bit_of(p4, plane) << 3) | (bit_of(p5, plane) << 2) | (bit_of(p6, plane) << 1)
        | bit_of(p7, plane)
}

/// The row byte at row `y` of bit plane `plane`, for a 64-pixel row-major
/// pixel grid.
pub open spec fn plane_row_byte(pixels: Seq<u8>, plane: int, y: int) -> u8 {
    row_byte(
        pixels[y * 8],
        pixels[y * 8 + 1],
        pixels[y * 8 + 2],
        pixels[y * 8 + 3],
        pixels[y * 8 + 4],
        pixels[y * 8 + 5],
        pixels[y * 8 + 6],
        pixels[y * 8 + 7],
        plane as u8,
    )
}

/// The 32-byte planar form of a 64-pixel grid: four 8-byte planes, one byte
/// per row within each plane.
pub open spec fn tile_planar(pixels: Seq<u8>) -> Seq<u8> {
    Seq::new(32, |i: int| plane_row_byte(pixels, i / 8, i % 8))
}

/// A 4-bit color index gathered back from bit `k` of the four plane bytes
/// of one row.
pub open spec fn gather_pixel(b0: u8, b1: u8, b2: u8, b3: u8, k: u8) -> u8 {
    bit_of(b0, k) | (bit_of(b1, k) << 1) | (bit_of(b2, k) << 2) | (bit_of(b3, k) << 3)
}

/// The 64-pixel grid decoded from a 32-byte planar blob.
pub open spec fn planar_pixels(bytes: Seq<u8>) -> Seq<u8> {
    Seq::new(
        64,
        |i: int|
            gather_pixel(
                bytes[i / 8],
                bytes[8 + i / 8],
                bytes[16 + i / 8],
                bytes[24 + i / 8],
                (7 - i % 8) as u8,
            ),
    )
}

/// An 8x8 tile of 4-bit color indices, stored row-major.
#[derive(Clone, Debug)]
pub struct Tile {
    pixels: [u8; 64],
}

impl View for Tile {
    type V = Seq<u8>;

    closed spec fn view(&self) -> Seq<u8> {
        self.pixels@
    }
}

impl Tile {
    /// Every pixel is a valid 4-bit color index.
    pub open spec fn wf(&self) -> bool {
        forall|i: int| 0 <= i < 64 ==> self@[i] < 16
    }

    /// Creates a tile with every pixel set to color index 0.
    pub fn new() -> (t: Tile)
        ensures
            t@.len() == 64,
            forall|i: int| 0 <= i < 64 ==> t@[i] == 0,
            t.wf(),
    {
        Tile { pixels: [0u8; 64] }
    }

    /// Sets the pixel at `(x, y)` to the given color index.  A coordinate
    /// outside the 8x8 grid or a color above 15 makes the call a silent
    /// no-op, never an error.
    pub fn set_pixel(&mut self, x: usize, y: usize, color: u8)
        ensures
            x < 8 && y < 8 && color < 16 ==> final(self)@ == old(self)@.update(
                y as int * 8 + x as int,
                color,
            ),
            !(x < 8 && y < 8 && color < 16) ==> final(self)@ == old(self)@,
            old(self).wf() ==> final(self).wf(),
    {
        if x < 8 && y < 8 && color < 16 {
            self.pixels[y * 8 + x] = color;
        }
        proof {
            if old(self).wf() {
                assert forall|i: int| 0 <= i < 64 implies self@[i] < 16 by {
                    assert(old(self)@[i] < 16);
                }
            }
        }
    }

    /// Returns the color index at `(x, y)`, or 0 if the coordinate lies
    /// outside the 8x8 grid.
    pub fn get_pixel(&self, x: usize, y: usize) -> (color: u8)
        ensures
            color == (if x < 8 && y < 8 {
                self@[y as int * 8 + x as int]
            } else {
                0u8
            }),
    {
        if x < 8 && y < 8 {
            self.pixels[y * 8 + x]
        } else {
            0
        }
    }

    /// Serializes the tile to its 32-byte planar form: each bit of every
    /// color index is scattered into the matching plane at the matching
    /// row and column position.
    pub fn to_planar(&self) -> (planar: [u8; 32])
        ensures
            planar@ == tile_planar(self@),
    {
        let mut planar = [0u8; 32];
        let mut plane: usize = 0;
        while plane < 4
            invariant
                0 <= plane <= 4,
                forall|k: int| 0 <= k < plane * 8 ==> planar@[k] == tile_planar(self@)[k],
            decreases 4 - plane,
        {
            let mut y: usize = 0;
            while y < 8
                invariant
                    0 <= plane < 4,
                    0 <= y <= 8,
                    forall|k: int| 0 <= k < plane * 8 + y ==> planar@[k] == tile_planar(self@)[k],
                decreases 8 - y,
            {
                let base: usize = y * 8;
                let sh: u8 = plane as u8;
                let p0: u8 = self.pixels[base];
                let p1: u8 = self.pixels[base + 1];
                let p2: u8 = self.pixels[base + 2];
                let p3: u8 = self.pixels[base + 3];
                let p4: u8 = self.pixels[base + 4];
                let p5: u8 = self.pixels[base + 5];
                let p6: u8 = self.pixels[base + 6];
                let p7: u8 = self.pixels[base + 7];
                let b: u8 = (((p0 >> sh) & 1) << 7) | (((p1 >> sh) & 1) << 6) | (((p2 >> sh) & 1)
                    << 5) | (((p3 >> sh) & 1) << 4) | (((p4 >> sh) & 1) << 3) | (((p5 >> sh) & 1)
                    << 2) | (((p6 >> sh) & 1) << 1) | ((p7 >> sh) & 1);
                proof {
                    assert(b == plane_row_byte(self@, plane as int, y as int));
                    assert((plane as int * 8 + y as int) / 8 == plane as int && (plane as int * 8
                        + y as int) % 8 == y as int) by (nonlinear_arith)
                        requires
                            0 <= plane < 4,
                            0 <= y < 8,
                    ;
                }
                planar[plane * 8 + y] = b;
                y = y + 1;
            }
            plane = plane + 1;
        }
        proof {
            assert(planar@ =~= tile_planar(self@));
        }
        planar
    }

    /// Reconstructs a tile from its 32-byte planar form, gathering the four
    /// plane bits of every pixel back into a 4-bit color index.
    pub fn from_planar(data: &[u8; 32]) -> (t: Tile)
        ensures
            t@ == planar_pixels(data@),
            t.wf(),
    {
        let mut pixels = [0u8; 64];
        let mut y: usize = 0;
        while y < 8
            invariant
                0 <= y <= 8,
                forall|k: int| 0 <= k < y * 8 ==> {
                    &&& pixels@[k] == planar_pixels(data@)[k]
                    &&& pixels@[k] < 16
                },
            decreases 8 - y,
        {
            let mut x: usize = 0;
            while x < 8
                invariant
                    0 <= y < 8,
                    0 <= x <= 8,
                    forall|k: int| 0 <= k < y * 8 + x ==> {
                        &&& pixels@[k] == planar_pixels(data@)[k]
                        &&& pixels@[k] < 16
                    },
                decreases 8 - x,
            {
                let k: u8 = 7 - (x as u8);
                let b0: u8 = data[y];
                let b1: u8 = data[8 + y];
                let b2: u8 = data[16 + y];
                let b3: u8 = data[24 + y];
                let c: u8 = ((b0 >> k) & 1) | (((b1 >> k) & 1) << 1) | (((b2 >> k) & 1) << 2) | (((
                b3 >> k) & 1) << 3);
                proof {
                    assert(c == gather_pixel(b0, b1, b2, b3, k));
                    assert(gather_pixel(b0, b1, b2, b3, k) < 16) by (bit_vector);
                    let i = y as int * 8 + x as int;
                    assert(i / 8 == y as int && i % 8 == x as int) by (nonlinear_arith)
                        requires
                            i == y as int * 8 + x as int,
                            0 <= y < 8,
                            0 <= x < 8,
                    ;
                }
                pixels[y * 8 + x] = c;
                x = x + 1;
            }
            y = y + 1;
        }
        let t = Tile { pixels };
        proof {
            assert(t@ =~= planar_pixels(data@));
        }
        t
    }
}

impl Default for Tile {
    /// The default tile has every pixel set to color index 0.
    fn default() -> (t: Tile)
        ensures
            t@.len() == 64,
            forall|i: int| 0 <= i < 64 ==> t@[i] == 0,
            t.wf(),
    {
        Tile::new()
    }
}

impl PartialEq for Tile {
    /// Two tiles are equal when all 64 pixels agree.
    fn eq(&self, other: &Tile) -> (r: bool) {
        let mut i: usize = 0;
        while i < 64
            invariant
                0 <= i <= 64,
                forall|j: int| 0 <= j < i ==> self@[j] == other@[j],
            decreases 64 - i,
        {
            if self.pixels[i] != other.pixels[i] {
                return false;
            }
            i = i + 1;
        }
        proof {
            assert(self@ =~= other@);
        }
        true
    }
}

impl Eq for Tile {

}

impl vstd::std_specs::cmp::PartialEqSpecImpl for Tile {
    open spec fn obeys_eq_spec() -> bool {
        true
    }

    open spec fn eq_spec(&self, other: &Tile) -> bool {
        self@ == other@
    }
}

/// Gathering bit `7 - x` of the four plane bytes of one row recovers the
/// pixel at column `x` of that row, for every column.
proof fn lemma_scatter_gather_column(
    p0: u8,
    p1: u8,
    p2: u8,
    p3: u8,
    p4: u8,
    p5: u8,
    p6: u8,
    p7: u8,
    x8: u8,
)
    by (bit_vector)
    requires
        x8 < 8,
        p0 < 16,
        p1 < 16,
        p2 < 16,
        p3 < 16,
        p4 < 16,
        p5 < 16,
        p6 < 16,
        p7 < 16,
    ensures
        x8 == 0 ==> gather_pixel(
            row_byte(p0, p1, p2, p3, p4, p5, p6, p7, 0),
            row_byte(p0, p1, p2, p3, p4, p5, p6, p7, 1),
            row_byte(p0, p1, p2, p3, p4, p5, p6, p7, 2),
            row_byte(p0, p1, p2, p3, p4, p5, p6, p7, 3),
            (7 - x8) as u8,
        ) == p0,
        x8 == 1 ==> gather_pixel(
            row_byte(p0, p1, p2, p3, p4, p5, p6, p7, 0),
            row_byte(p0, p1, p2, p3, p4, p5, p6, p7, 1),
            row_byte(p0, p1, p2, p3, p4, p5, p6, p7, 2),
            row_byte(p0, p1, p2, p3, p4, p5, p6, p7, 3),
            (7 - x8) as u8,
        ) == p1,
        x8 == 2 ==> gather_pixel(
            row_byte(p0, p1, p2, p3, p4, p5, p6, p7, 0),
            row_byte(p0, p1, p2, p3, p4, p5, p6, p7, 1),
            row_byte(p0, p1, p2, p3, p4, p5, p6, p7, 2),
            row_byte(p0, p1, p2, p3, p4, p5, p6, p7, 3),
            (7 - x8) as u8,
        ) == p2,
        x8 == 3 ==> gather_pixel(
            row_byte(p0, p1, p2, p3, p4, p5, p6, p7, 0),
            row_byte(p0, p1, p2, p3, p4, p5, p6, p7, 1),
            row_byte(p0, p1, p2, p3, p4, p5, p6, p7, 2),
            row_byte(p0, p1, p2, p3, p4, p5, p6, p7, 3),
            (7 - x8) as u8,
        ) == p3,
        x8 == 4 ==> gather_pixel(
            row_byte(p0, p1, p2, p3, p4, p5, p6, p7, 0),
            row_byte(p0, p1, p2, p3, p4, p5, p6, p7, 1),
            row_byte(p0, p1, p2, p3, p4, p5, p6, p7, 2),
            row_byte(p0, p1, p2, p3, p4, p5, p6, p7, 3),
            (7 - x8) as u8,
        ) == p4,
        x8 == 5 ==> gather_pixel(
            row_byte(p0, p1, p2, p3, p4, p5, p6, p7, 0),
            row_byte(p0, p1, p2, p3, p4, p5, p6, p7, 1),
            row_byte(p0, p1, p2, p3, p4, p5, p6, p7, 2),
            row_byte(p0, p1, p2, p3, p4, p5, p6, p7, 3),
            (7 - x8) as u8,
        ) == p5,
        x8 == 6 ==> gather_pixel(
            row_byte(p0, p1, p2, p3, p4, p5, p6, p7, 0),
            row_byte(p0, p1, p2, p3, p4, p5, p6, p7, 1),
            row_byte(p0, p1, p2, p3, p4, p5, p6, p7, 2),
            row_byte(p0, p1, p2, p3, p4, p5, p6, p7, 3),
            (7 - x8) as u8,
        ) == p6,
        x8 == 7 ==> gather_pixel(
            row_byte(p0, p1, p2, p3, p4, p5, p6, p7, 0),
            row_byte(p0, p1, p2, p3, p4, p5, p6, p7, 1),
            row_byte(p0, p1, p2, p3, p4, p5, p6, p7, 2),
            row_byte(p0, p1, p2, p3, p4, p5, p6, p7, 3),
            (7 - x8) as u8,
        ) == p7,
{
}

/// Scattering a 64-pixel grid into its four bit planes and gathering every
/// pixel back reproduces the grid exactly, for every coordinate and every
/// color index 0-15 independently.
pub proof fn lemma_planar_round_trip(pixels: Seq<u8>)
    requires
        pixels.len() == 64,
        forall|i: int| 0 <= i < 64 ==> pixels[i] < 16,
    ensures
        planar_pixels(tile_planar(pixels)) == pixels,
{
    let bytes = tile_planar(pixels);
    assert forall|i: int| 0 <= i < 64 implies planar_pixels(bytes)[i] == pixels[i] by {
        let y = i / 8;
        let x = i % 8;
        assert(0 <= y < 8 && 0 <= x < 8 && i == y * 8 + x) by (nonlinear_arith)
            requires
                0 <= i < 64,
                y == i / 8,
                x == i % 8,
        ;
        assert(y / 8 == 0 && y % 8 == y && (8 + y) / 8 == 1 && (8 + y) % 8 == y && (16 + y) / 8
            == 2 && (16 + y) % 8 == y && (24 + y) / 8 == 3 && (24 + y) % 8 == y) by (nonlinear_arith)
            requires
                0 <= y < 8,
        ;
        let p0 = pixels[y * 8];
        let p1 = pixels[y * 8 + 1];
        let p2 = pixels[y * 8 + 2];
        let p3 = pixels[y * 8 + 3];
        let p4 = pixels[y * 8 + 4];
        let p5 = pixels[y * 8 + 5];
        let p6 = pixels[y * 8 + 6];
        let p7 = pixels[y * 8 + 7];
        lemma_scatter_gather_column(p0, p1, p2, p3, p4, p5, p6, p7, x as u8);
        assert(bytes[y] == row_byte(p0, p1, p2, p3, p4, p5, p6, p7, 0));
        assert(bytes[8 + y] == row_byte(p0, p1, p2, p3, p4, p5, p6, p7, 1));
        assert(bytes[16 + y] == row_byte(p0, p1, p2, p3, p4, p5, p6, p7, 2));
        assert(bytes[24 + y] == row_byte(p0, p1, p2, p3, p4, p5, p6, p7, 3));
        assert(planar_pixels(bytes)[i] == gather_pixel(
            bytes[y],
            bytes[8 + y],
            bytes[16 + y],
            bytes[24 + y],
            (7 - x) as u8,
        ));
        assert(pixels[i] == (if x == 0 {
            p0
        } else if x == 1 {
            p1
        } else if x == 2 {
            p2
        } else if x == 3 {
            p3
        } else if x == 4 {
            p4
        } else if x == 5 {
            p5
        } else if x == 6 {
            p6
        } else {
            p7
        }));
    }
    assert(planar_pixels(bytes) =~= pixels);
}

} // verus!
