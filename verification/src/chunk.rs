//! Pixels of the proxy's world model and their 12-bit compact form.
use vstd::prelude::*;
use crate::encoding::{decode_runs, runs_canonical, PixelRunner, RawPixel};
use crate::world_model::ChunkData;

verus! {

/// What is known about a pixel.
#[derive(Debug, Clone, Copy, PartialEq, Eq, Structural)]
pub enum PixelFlags {
    /// Actual material isn't known yet.
    Unknown,
    Normal,
    Fluid,
}

impl Default for PixelFlags {
    fn default() -> (r: PixelFlags)
        ensures
            r == PixelFlags::Unknown,
    {
        PixelFlags::Unknown
    }
}

/// A pixel as the world model sees it: a material id and what kind of cell it is.
#[derive(Debug, Clone, Copy, PartialEq, Eq, Structural)]
pub struct Pixel {
    pub flags: PixelFlags,
    pub material: u16,
}

impl Default for Pixel {
    fn default() -> (r: Pixel)
        ensures
            r == (Pixel { flags: PixelFlags::Unknown, material: 0 }),
    {
        Pixel { flags: PixelFlags::Unknown, material: 0 }
    }
}

/// The raw value that stands for "unknown pixel" in the compact form.
pub const UNKNOWN_RAW: u16 = 4095;

/// Materials must fit in 11 bits once incremented, so ids at or above this
/// cannot be represented in the compact form.
pub const MAX_MATERIAL: u16 = 2046;

/// The pixel that the compact form encodes: the raw value it produces.
pub open spec fn compact_raw_of(p: Pixel) -> u16 {
    if p.flags == PixelFlags::Unknown || p.material >= MAX_MATERIAL {
        UNKNOWN_RAW
    } else {
        ((p.material + 1) * 2 + (if p.flags == PixelFlags::Normal { 0int } else { 1int })) as u16
    }
}

/// The pixel a raw compact value decodes to.
pub open spec fn pixel_of_raw(raw: u16) -> Pixel {
    if raw == UNKNOWN_RAW || raw < 2 {
        Pixel { flags: PixelFlags::Unknown, material: 0 }
    } else {
        Pixel {
            flags: if raw % 2 == 1 { PixelFlags::Fluid } else { PixelFlags::Normal },
            material: (raw / 2 - 1) as u16,
        }
    }
}

/// An entire pixel packed into 12 bits. The raw value is never zero.
#[derive(Debug, Clone, Copy, PartialEq, Eq)]
pub struct CompactPixel {
    raw: u16,
}

impl CompactPixel {
    #[verifier::type_invariant]
    spec fn nonzero(self) -> bool {
        self.raw != 0
    }

    /// The raw 16-bit value of the compact pixel.
    pub closed spec fn raw_value(self) -> u16 {
        self.raw
    }

    /// Builds a compact pixel from its raw value; the value must not be zero.
    pub fn from_raw(val: u16) -> (r: CompactPixel)
        requires
            val != 0,
        ensures
            r.raw_value() == val,
    {
        CompactPixel { raw: val }
    }

    /// Builds a compact pixel from its raw value, or `None` for zero.
    pub fn new(val: u16) -> (r: Option<CompactPixel>)
        ensures
            r is Some <==> val != 0,
            r matches Some(c) ==> c.raw_value() == val,
    {
        if val == 0 {
            None
        } else {
            Some(CompactPixel { raw: val })
        }
    }

    pub fn raw(self) -> (r: u16)
        ensures
            r == self.raw_value(),
            r != 0,
    {
        proof {
            use_type_invariant(self);
        }
        self.raw
    }

    /// The compact pixel that stands for an unknown pixel.
    pub fn unknown() -> (r: CompactPixel)
        ensures
            r.raw_value() == UNKNOWN_RAW,
    {
        CompactPixel { raw: UNKNOWN_RAW }
    }

    /// Compares two compact pixels by their raw value.
    pub fn same(&self, other: &CompactPixel) -> (r: bool)
        ensures
            r == (*self == *other),
    {
        self.raw == other.raw
    }
}

impl Default for CompactPixel {
    fn default() -> (r: CompactPixel)
        ensures
            r.raw_value() == UNKNOWN_RAW,
    {
        CompactPixel { raw: UNKNOWN_RAW }
    }
}

/// Two compact pixels are equal exactly when their raw values are.
pub proof fn lemma_compact_eq(a: CompactPixel, b: CompactPixel)
    ensures
        (a == b) <==> (a.raw_value() == b.raw_value()),
{
}

impl PixelFlags {
    /// Compares two flag values.
    pub fn same(self, other: PixelFlags) -> (r: bool)
        ensures
            r == (self == other),
    {
        match (self, other) {
            (PixelFlags::Unknown, PixelFlags::Unknown) => true,
            (PixelFlags::Normal, PixelFlags::Normal) => true,
            (PixelFlags::Fluid, PixelFlags::Fluid) => true,
            _ => false,
        }
    }
}

impl Pixel {
    /// Compares two pixels field by field.
    pub fn same(&self, other: &Pixel) -> (r: bool)
        ensures
            r == (*self == *other),
    {
        self.flags.same(other.flags) && self.material == other.material
    }

    /// Packs the pixel into its compact form. Unknown pixels and materials at or
    /// above `MAX_MATERIAL` become the unknown value.
    pub fn to_compact(self) -> (r: CompactPixel)
        ensures
            r.raw_value() == compact_raw_of(self),
    {
        let flag_bit: u16 = if self.flags.same(PixelFlags::Normal) {
            0
        } else {
            1
        };
        let raw: u16 = if self.flags.same(PixelFlags::Unknown) || self.material >= MAX_MATERIAL {
            UNKNOWN_RAW
        } else {
            (self.material + 1) * 2 + flag_bit
        };
        CompactPixel::from_raw(raw)
    }

    /// Unpacks a compact pixel.
    pub fn from_compact(compact: CompactPixel) -> (r: Pixel)
        ensures
            r == pixel_of_raw(compact.raw_value()),
    {
        let raw = compact.raw();
        if raw == UNKNOWN_RAW || raw < 2 {
            return Pixel { flags: PixelFlags::Unknown, material: 0 };
        }
        let material = raw / 2 - 1;
        let flags = if raw % 2 == 1 {
            PixelFlags::Fluid
        } else {
            PixelFlags::Normal
        };
        Pixel { flags, material }
    }
}

/// The raw pixel the game decoders get for a pixel: unknown pixels get the
/// material `u16::MAX`, and only normal pixels get the flag byte 0.
pub open spec fn raw_of_pixel(p: Pixel) -> RawPixel {
    RawPixel {
        material: if p.flags != PixelFlags::Unknown { p.material } else { u16::MAX },
        flags: if p.flags == PixelFlags::Normal { 0 } else { 1 },
    }
}

impl Pixel {
    /// The pixel as the game decoders read it.
    pub fn to_raw(self) -> (r: RawPixel)
        ensures
            r == raw_of_pixel(self),
    {
        RawPixel {
            material: if !self.flags.same(PixelFlags::Unknown) {
                self.material
            } else {
                u16::MAX
            },
            flags: if self.flags.same(PixelFlags::Normal) {
                0
            } else {
                1
            },
        }
    }
}

/// Round trip of the compact form: a known pixel whose material is below
/// `MAX_MATERIAL` comes back unchanged; any other pixel comes back as the
/// unknown pixel with material 0.
pub proof fn lemma_compact_round_trip(p: Pixel)
    ensures
        p.flags != PixelFlags::Unknown && p.material < MAX_MATERIAL ==> pixel_of_raw(
            compact_raw_of(p),
        ) == p,
        p.flags == PixelFlags::Unknown || p.material >= MAX_MATERIAL ==> pixel_of_raw(
            compact_raw_of(p),
        ) == (Pixel { flags: PixelFlags::Unknown, material: 0 }),
{
}

/// The compact form never produces zero, and it never aliases: two known pixels
/// with representable materials encode to the same value only when equal.
pub proof fn lemma_compact_injective(p: Pixel, q: Pixel)
    ensures
        compact_raw_of(p) != 0,
        p.flags != PixelFlags::Unknown && p.material < MAX_MATERIAL && q.flags
            != PixelFlags::Unknown && q.material < MAX_MATERIAL && compact_raw_of(p)
            == compact_raw_of(q) ==> p == q,
        p.flags != PixelFlags::Unknown && p.material < MAX_MATERIAL ==> compact_raw_of(p)
            != UNKNOWN_RAW,
{
    lemma_compact_round_trip(p);
    lemma_compact_round_trip(q);
}


/// Pixels on one side of a chunk.
pub const CHUNK_SIZE: usize = 128;

/// Number of pixels in a chunk.
pub const CHUNK_SQUARE: usize = 16384;

/// Change tracking for the pixels of a chunk.
pub struct Changed<T, const N: usize>(pub [T; N]);

impl Changed<bool, CHUNK_SQUARE> {
    /// Whether the pixel at `n` is marked changed.
    pub fn get(&self, n: usize) -> (r: bool)
        requires
            n < CHUNK_SQUARE,
        ensures
            r == self.0@[n as int],
    {
        self.0[n]
    }

    /// Marks the pixel at `n` changed.
    pub fn set(&mut self, n: usize)
        requires
            n < CHUNK_SQUARE,
        ensures
            final(self).0@ == old(self).0@.update(n as int, true),
        no_unwind
    {
        self.0[n] = true;
    }
}

/// Whether bit `n` is set in a packed bit array of 128-bit words.
pub open spec fn packed_bit(words: Seq<u128>, n: int) -> bool {
    words[n / 128] & (1u128 << ((n % 128) as u128)) != 0
}

proof fn lemma_word_set_bit(w: u128, k: u128, j: u128)
    requires
        k < 128,
        j < 128,
    ensures
        ((w | (1u128 << k)) & (1u128 << j) != 0) == (j == k || (w & (1u128 << j) != 0)),
{
    assert(((w | (1u128 << k)) & (1u128 << j) != 0) == (j == k || (w & (1u128 << j) != 0)))
        by (bit_vector)
        requires
            k < 128,
            j < 128,
    ;
}

impl Changed<u128, CHUNK_SIZE> {
    /// Whether the pixel at `n` is marked changed.
    pub fn get(&self, n: usize) -> (r: bool)
        requires
            n < CHUNK_SQUARE,
        ensures
            r == packed_bit(self.0@, n as int),
    {
        self.0[n / CHUNK_SIZE] & (1u128 << ((n % CHUNK_SIZE) as u128)) != 0
    }

    /// Marks the pixel at `n` changed, leaving every other mark as it was.
    pub fn set(&mut self, n: usize)
        requires
            n < CHUNK_SQUARE,
        ensures
            forall|m: int|
                0 <= m < CHUNK_SQUARE ==> #[trigger] packed_bit(final(self).0@, m) == (m == n
                    || packed_bit(old(self).0@, m)),
    {
        let i = n / CHUNK_SIZE;
        let k = (n % CHUNK_SIZE) as u128;
        let w = self.0[i];
        self.0[i] = w | (1u128 << k);
        assert forall|m: int| 0 <= m < CHUNK_SQUARE implies #[trigger] packed_bit(self.0@, m) == (m
            == n || packed_bit(old(self).0@, m)) by {
            let j = (m % 128) as u128;
            if m / 128 == i as int {
                lemma_word_set_bit(w, k, j);
                assert(m == n <==> j == k);
            }
        }
    }
}

/// A chunk of pixels, stored compactly, with a record of which pixels changed.
pub struct Chunk {
    pixels: [u16; CHUNK_SQUARE],
    changed: Changed<bool, CHUNK_SQUARE>,
}

impl Chunk {
    #[verifier::type_invariant]
    spec fn pixels_nonzero(self) -> bool {
        forall|i: int| 0 <= i < CHUNK_SQUARE ==> #[trigger] self.pixels@[i] != 0
    }

    /// Raw compact values of the pixels, in offset order (`x + y * CHUNK_SIZE`).
    pub closed spec fn raw_pixels(self) -> Seq<u16> {
        self.pixels@
    }

    /// Which pixels are marked changed, in offset order.
    pub closed spec fn changed_marks(self) -> Seq<bool> {
        self.changed.0@
    }

    /// Both sequences always cover the whole chunk.
    pub proof fn lemma_lengths(self)
        ensures
            self.raw_pixels().len() == CHUNK_SQUARE,
            self.changed_marks().len() == CHUNK_SQUARE,
    {
    }

    /// The pixel sequence always covers the whole chunk.
    pub broadcast proof fn lemma_chunk_pixels_len(self)
        ensures
            #[trigger] self.raw_pixels().len() == CHUNK_SQUARE,
    {
    }

    /// The change marks always cover the whole chunk.
    pub broadcast proof fn lemma_chunk_marks_len(self)
        ensures
            #[trigger] self.changed_marks().len() == CHUNK_SQUARE,
    {
    }

    /// The pixel at `offset`, decoded.
    pub fn pixel(&self, offset: usize) -> (r: Pixel)
        requires
            offset < CHUNK_SQUARE,
        ensures
            r == pixel_of_raw(self.raw_pixels()[offset as int]),
    {
        proof {
            use_type_invariant(self);
        }
        Pixel::from_compact(CompactPixel::from_raw(self.pixels[offset]))
    }

    /// The pixel at `offset`, compact.
    pub fn compact_pixel(&self, offset: usize) -> (r: CompactPixel)
        requires
            offset < CHUNK_SQUARE,
        ensures
            r.raw_value() == self.raw_pixels()[offset as int],
    {
        proof {
            use_type_invariant(self);
        }
        CompactPixel::from_raw(self.pixels[offset])
    }

    /// Writes a pixel; if its compact value differs from the stored one, the
    /// pixel is also marked changed.
    pub fn set_pixel(&mut self, offset: usize, pixel: Pixel)
        requires
            offset < CHUNK_SQUARE,
        ensures
            final(self).raw_pixels() == old(self).raw_pixels().update(
                offset as int,
                compact_raw_of(pixel),
            ),
            final(self).changed_marks() == if old(self).raw_pixels()[offset as int]
                != compact_raw_of(pixel) {
                old(self).changed_marks().update(offset as int, true)
            } else {
                old(self).changed_marks()
            },
    {
        self.set_compact_pixel(offset, pixel.to_compact());
    }

    /// Writes a compact pixel; if it differs from the stored one, the pixel is
    /// also marked changed.
    pub fn set_compact_pixel(&mut self, offset: usize, pixel: CompactPixel)
        requires
            offset < CHUNK_SQUARE,
        ensures
            final(self).raw_pixels() == old(self).raw_pixels().update(
                offset as int,
                pixel.raw_value(),
            ),
            final(self).changed_marks() == if old(self).raw_pixels()[offset as int]
                != pixel.raw_value() {
                old(self).changed_marks().update(offset as int, true)
            } else {
                old(self).changed_marks()
            },
    {
        proof {
            use_type_invariant(&*self);
        }
        let px = pixel.raw();
        if self.pixels[offset] != px {
            self.pixels[offset] = px;
            self.mark_changed(offset);
        } else {
            assert(self.pixels@ =~= old(self).pixels@.update(offset as int, px));
        }
    }

    /// Whether the pixel at `offset` is marked changed.
    pub fn changed(&self, offset: usize) -> (r: bool)
        requires
            offset < CHUNK_SQUARE,
        ensures
            r == self.changed_marks()[offset as int],
    {
        self.changed.get(offset)
    }

    /// Marks the pixel at `offset` changed.
    pub fn mark_changed(&mut self, offset: usize)
        requires
            offset < CHUNK_SQUARE,
        ensures
            final(self).raw_pixels() == old(self).raw_pixels(),
            final(self).changed_marks() == old(self).changed_marks().update(offset as int, true),
    {
        proof {
            use_type_invariant(&*self);
        }
        self.changed.set(offset);
    }

    /// Forgets every change mark.
    pub fn clear_changed(&mut self)
        ensures
            final(self).raw_pixels() == old(self).raw_pixels(),
            final(self).changed_marks() == Seq::new(CHUNK_SQUARE as nat, |_i: int| false),
    {
        proof {
            use_type_invariant(&*self);
        }
        self.changed = Changed([false; CHUNK_SQUARE]);
        assert(self.changed.0@ =~= Seq::new(CHUNK_SQUARE as nat, |_i: int| false));
    }
}

impl Default for Chunk {
    fn default() -> (r: Chunk)
        ensures
            r.raw_pixels() == Seq::new(CHUNK_SQUARE as nat, |_i: int| UNKNOWN_RAW),
            r.changed_marks() == Seq::new(CHUNK_SQUARE as nat, |_i: int| false),
    {
        let r = Chunk { pixels: [UNKNOWN_RAW; CHUNK_SQUARE], changed: Changed([false; CHUNK_SQUARE]) };
        assert(r.pixels@ =~= Seq::new(CHUNK_SQUARE as nat, |_i: int| UNKNOWN_RAW));
        assert(r.changed.0@ =~= Seq::new(CHUNK_SQUARE as nat, |_i: int| false));
        r
    }
}

/// The raw values of a sequence of compact pixels.
pub open spec fn raws(s: Seq<CompactPixel>) -> Seq<u16> {
    s.map_values(|c: CompactPixel| c.raw_value())
}

impl Chunk {
    /// Run-length encodes the whole chunk.
    pub fn to_chunk_data(&self) -> (r: ChunkData)
        ensures
            raws(decode_runs(r.runs@)) == self.raw_pixels(),
            decode_runs(r.runs@).len() == CHUNK_SQUARE,
            runs_canonical(r.runs@),
    {
        let mut runner: PixelRunner<CompactPixel> = PixelRunner::new();
        let mut i: usize = 0;
        while i < CHUNK_SQUARE
            invariant
                i <= CHUNK_SQUARE,
                runner.wf(),
                runner.pushed().len() == i,
                forall|j: int| 0 <= j < i ==> (#[trigger] runner.pushed()[j]).raw_value()
                    == self.raw_pixels()[j],
            decreases CHUNK_SQUARE - i,
        {
            let px = self.compact_pixel(i);
            proof {
                runner.lemma_can_put(px);
            }
            runner.put_pixel(px);
            i = i + 1;
        }
        let runs = runner.build();
        assert(raws(decode_runs(runs@)) =~= self.raw_pixels());
        ChunkData { runs }
    }
}

} // verus!
