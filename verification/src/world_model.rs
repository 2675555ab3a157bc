//! The proxy's model of the world: chunks of pixels, which of them were
//! written, and the updates that bring the game in line with it.
use vstd::prelude::*;
use std::collections::HashMap;
use std::sync::Arc;
use vstd::arithmetic::div_mod::{
    lemma_div_is_ordered, lemma_div_pos_is_pos, lemma_fundamental_div_mod,
    lemma_fundamental_div_mod_converse, lemma_mod_pos_bound,
};
use crate::chunk::{
    compact_raw_of, lemma_compact_round_trip, MAX_MATERIAL, pixel_of_raw, PixelFlags, raw_of_pixel, raws, Chunk, CompactPixel, Pixel, CHUNK_SIZE, CHUNK_SQUARE,
    UNKNOWN_RAW,
};
use crate::encoding::{
    decode_runs, lemma_decode_len, lemma_decode_prefix, lemma_decode_push, runs_canonical,
    runs_total, NoitaWorldUpdate, PixelRun, PixelRunner, RawPixel, Header,
};

verus! {

broadcast use {
    vstd::std_specs::hash::group_hash_axioms,
    Chunk::lemma_chunk_pixels_len,
    Chunk::lemma_chunk_marks_len,
};

/// Number of pixels in a chunk. Run lengths decoded from the network are
/// clamped against this.
pub const CHUNK_AREA: usize = CHUNK_SQUARE;

/// Contains full info about a chunk, RLE encoded.
pub struct ChunkData {
    pub runs: Vec<PixelRun<CompactPixel>>,
}

/// The chunk pixels after painting the known pixels of `d` over `base`,
/// position by position; unknown pixels and positions past the end of `d` keep
/// the base value, and nothing is painted past the end of `base`.
pub open spec fn painted(base: Seq<u16>, d: Seq<u16>) -> Seq<u16> {
    Seq::new(
        base.len(),
        |p: int|
            if p < d.len() && d[p] != UNKNOWN_RAW {
                d[p]
            } else {
                base[p]
            },
    )
}

/// The change marks after painting `d` over `base`: a pixel becomes marked when
/// it is painted with a value different from the one it held.
pub open spec fn painted_marks(base: Seq<u16>, marks: Seq<bool>, d: Seq<u16>) -> Seq<bool> {
    Seq::new(
        marks.len(),
        |p: int| marks[p] || (p < d.len() && d[p] != UNKNOWN_RAW && d[p] != base[p]),
    )
}

/// Writing chunk data that gives every pixel of a chunk, then reading the
/// chunk back, gives that data, whatever the chunk held before.
pub proof fn lemma_whole_chunk_data_read_back(base: Seq<u16>, d: Seq<u16>)
    requires
        base.len() == CHUNK_AREA,
        d.len() == CHUNK_AREA,
        forall|i: int| 0 <= i < d.len() ==> #[trigger] d[i] != UNKNOWN_RAW,
    ensures
        painted(base, d) == d,
{
    assert(painted(base, d) =~= d);
}

/// Writing a delta sets exactly the pixels it gives and keeps the others.
pub proof fn lemma_delta_read_back(base: Seq<u16>, d: Seq<Option<u16>>, i: int)
    requires
        base.len() == CHUNK_AREA,
        0 <= i < CHUNK_AREA,
    ensures
        written(base, d)[i] == if i < d.len() && d[i] is Some {
            d[i]->0
        } else {
            base[i]
        },
{
}

/// Raw pixels of a chunk nobody has written to.
pub open spec fn unknown_chunk() -> Seq<u16> {
    Seq::new(CHUNK_AREA as nat, |_i: int| UNKNOWN_RAW)
}

/// Applying a delta to chunk data (as `ChunkData::apply_delta` does: both
/// painted over a fresh chunk, then encoded again) gives a whole chunk whose
/// pixel `o` is the delta's pixel there when it knows one, else the data's
/// pixel there when it knows one, else an unknown pixel.
pub proof fn lemma_delta_layers(data: Seq<u16>, delta: Seq<u16>, o: int)
    requires
        0 <= o < CHUNK_AREA,
    ensures
        painted(painted(unknown_chunk(), data), delta).len() == CHUNK_AREA,
        painted(painted(unknown_chunk(), data), delta)[o] == if o < delta.len() && delta[o] != UNKNOWN_RAW {
            delta[o]
        } else if o < data.len() && data[o] != UNKNOWN_RAW {
            data[o]
        } else {
            UNKNOWN_RAW
        },
{
}

proof fn lemma_painted_extend(base: Seq<u16>, d1: Seq<u16>, d2: Seq<u16>)
    requires
        d1.len() >= base.len(),
    ensures
        painted(base, d1 + d2) == painted(base, d1),
        forall|marks: Seq<bool>|
            marks.len() == base.len() ==> painted_marks(base, marks, d1 + d2) == painted_marks(
                base,
                marks,
                d1,
            ),
{
    assert(painted(base, d1 + d2) =~= painted(base, d1));
    assert forall|marks: Seq<bool>|
        marks.len() == base.len() implies painted_marks(base, marks, d1 + d2) == painted_marks(
            base,
            marks,
            d1,
        ) by {
        assert(painted_marks(base, marks, d1 + d2) =~= painted_marks(base, marks, d1));
    }
}

/// Paints the runs over the chunk, skipping unknown pixels and clamping the
/// runs at the end of the chunk.
fn paint_runs(runs: &Vec<PixelRun<CompactPixel>>, chunk: &mut Chunk)
    ensures
        final(chunk).raw_pixels() == painted(old(chunk).raw_pixels(), raws(decode_runs(runs@))),
        final(chunk).changed_marks() == painted_marks(
            old(chunk).raw_pixels(),
            old(chunk).changed_marks(),
            raws(decode_runs(runs@)),
        ),
{
    let ghost base = chunk.raw_pixels();
    let ghost marks0 = chunk.changed_marks();
    proof {
        old(chunk).lemma_lengths();
    }
    let nil = CompactPixel::unknown();
    let mut offset: usize = 0;
    let mut i: usize = 0;
    while i < runs.len() && offset < CHUNK_AREA
        invariant
            i <= runs.len(),
            offset <= CHUNK_AREA,
            offset < CHUNK_AREA ==> offset == runs_total(runs@.take(i as int)),
            offset == CHUNK_AREA ==> runs_total(runs@.take(i as int)) >= CHUNK_AREA,
            base.len() == CHUNK_AREA,
            marks0.len() == CHUNK_AREA,
            nil.raw_value() == UNKNOWN_RAW,
            chunk.raw_pixels() == painted(base, raws(decode_runs(runs@.take(i as int)))),
            chunk.changed_marks() == painted_marks(base, marks0, raws(decode_runs(runs@.take(i as int)))),
        decreases runs.len() - i,
    {
        let run = runs[i];
        let ghost d0 = raws(decode_runs(runs@.take(i as int)));
        let ghost rep = Seq::new(run.length as nat, |_k: int| run.data);
        proof {
            assert(runs@.take(i + 1) =~= runs@.take(i as int).push(run));
            lemma_decode_push(runs@.take(i as int), run);
            lemma_decode_len(runs@.take(i as int));
            assert(d0.len() == offset);
        }
        let room = CHUNK_AREA - offset;
        let len: usize = if (run.length as usize) < room { run.length as usize } else { room };
        let start = offset;
        proof {
            crate::chunk::lemma_compact_eq(run.data, nil);
        }
        if !run.data.same(&nil) {
            let mut j: usize = 0;
            while j < len
                invariant
                    j <= len,
                    len <= room,
                    room == CHUNK_AREA - start,
                    start < CHUNK_AREA,
                    offset == start + j,
                    len <= run.length,
                    run.data.raw_value() != UNKNOWN_RAW,
                    rep == Seq::new(run.length as nat, |_k: int| run.data),
                    d0.len() == start,
                    base.len() == CHUNK_AREA,
                    marks0.len() == CHUNK_AREA,
                    chunk.raw_pixels() == painted(base, d0 + raws(rep.take(j as int))),
                    chunk.changed_marks() == painted_marks(base, marks0, d0 + raws(rep.take(j as int))),
                decreases len - j,
            {
                proof {
                    chunk.lemma_lengths();
                    assert((d0 + raws(rep.take(j as int))).len() == offset);
                }
                let ghost before = chunk.raw_pixels();
                chunk.set_compact_pixel(offset, run.data);
                proof {
                    assert(rep.take(j + 1) =~= rep.take(j as int).push(run.data));
                    assert(raws(rep.take(j + 1)) =~= raws(rep.take(j as int)).push(run.data.raw_value()));
                    let dn = d0 + raws(rep.take(j + 1));
                    assert(dn =~= (d0 + raws(rep.take(j as int))).push(run.data.raw_value()));
                    assert(before[offset as int] == base[offset as int]);
                    assert(chunk.raw_pixels() =~= painted(base, dn));
                    assert(chunk.changed_marks() =~= painted_marks(base, marks0, dn));
                }
                offset = offset + 1;
                j = j + 1;
            }
            proof {
                let dfull = d0 + raws(rep);
                if len == run.length {
                    assert(rep.take(len as int) =~= rep);
                } else {
                    assert(dfull =~= (d0 + raws(rep.take(len as int))) + raws(rep.skip(len as int)));
                    lemma_painted_extend(base, d0 + raws(rep.take(len as int)), raws(rep.skip(len as int)));
                }
            }
        } else {
            proof {
                let dfull = d0 + raws(rep);
                assert forall|p: int| 0 <= p < dfull.len() && p >= d0.len() implies dfull[p]
                    == UNKNOWN_RAW by {
                    assert(rep[p - d0.len()] == run.data);
                }
                assert(painted(base, dfull) =~= painted(base, d0));
                assert(painted_marks(base, marks0, dfull) =~= painted_marks(base, marks0, d0));
            }
            offset = offset + len;
        }
        proof {
            assert(raws(decode_runs(runs@.take(i + 1))) =~= d0 + raws(rep));
            lemma_decode_len(runs@.take(i + 1));
        }
        i = i + 1;
    }
    proof {
        lemma_decode_prefix(runs@, i as int);
        let d1 = raws(decode_runs(runs@.take(i as int)));
        let d2 = raws(decode_runs(runs@.skip(i as int)));
        assert(raws(decode_runs(runs@)) =~= d1 + d2);
        if i == runs.len() {
            assert(runs@.take(i as int) =~= runs@);
        } else {
            lemma_decode_len(runs@.take(i as int));
            lemma_painted_extend(base, d1, d2);
        }
    }
}

/// The first `n` pushed pixels are those of the striped test chunk.
spec fn runs_pushed_random(pushed: Seq<CompactPixel>, n: int) -> bool {
    &&& pushed.len() == n
    &&& forall|j: int| 0 <= j < n ==> #[trigger] pushed[j].raw_value() == compact_raw_of(
        Pixel { flags: PixelFlags::Normal, material: (j % 512) as u16 },
    )
}

impl ChunkData {
    /// A whole chunk of material `mat`, with normal flags.
    pub fn new(mat: u16) -> (r: Self)
        ensures
            raws(decode_runs(r.runs@)) == Seq::new(
                CHUNK_AREA as nat,
                |_i: int| compact_raw_of(Pixel { flags: PixelFlags::Normal, material: mat }),
            ),
            runs_canonical(r.runs@),
    {
        let mut runner: PixelRunner<CompactPixel> = PixelRunner::new();
        let pixel = Pixel { flags: PixelFlags::Normal, material: mat }.to_compact();
        let mut i: usize = 0;
        while i < CHUNK_AREA
            invariant
                i <= CHUNK_AREA,
                runner.wf(),
                runner.pushed() == Seq::new(i as nat, |_i: int| pixel),
            decreases CHUNK_AREA - i,
        {
            proof {
                runner.lemma_can_put(pixel);
            }
            runner.put_pixel(pixel);
            i = i + 1;
            assert(runner.pushed() =~= Seq::new(i as nat, |_i: int| pixel));
        }
        let runs = runner.build();
        assert(raws(decode_runs(runs@)) =~= Seq::new(
            CHUNK_AREA as nat,
            |_i: int| compact_raw_of(Pixel { flags: PixelFlags::Normal, material: mat }),
        ));
        ChunkData { runs }
    }

    /// A whole chunk whose `i`-th pixel has material `i % 512`, with normal flags.
    pub fn make_random() -> (r: Self)
        ensures
            raws(decode_runs(r.runs@)) == Seq::new(
                CHUNK_AREA as nat,
                |i: int| compact_raw_of(Pixel { flags: PixelFlags::Normal, material: (i % 512) as u16 }),
            ),
            runs_canonical(r.runs@),
    {
        let mut runner: PixelRunner<CompactPixel> = PixelRunner::new();
        let mut i: usize = 0;
        while i < CHUNK_AREA
            invariant
                i <= CHUNK_AREA,
                runner.wf(),
                runs_pushed_random(runner.pushed(), i as int),
            decreases CHUNK_AREA - i,
        {
            let pixel = Pixel { flags: PixelFlags::Normal, material: (i as u16) % 512 }.to_compact();
            proof {
                runner.lemma_can_put(pixel);
            }
            let ghost before = runner.pushed();
            runner.put_pixel(pixel);
            proof {
                assert(runner.pushed() == before.push(pixel));
                assert forall|j: int| 0 <= j < i + 1 implies #[trigger] runner.pushed()[j].raw_value()
                    == compact_raw_of(Pixel { flags: PixelFlags::Normal, material: (j % 512) as u16 }) by {
                    if j == i {
                        assert((i as u16) % 512 == (j % 512) as u16);
                    }
                }
            }
            i = i + 1;
        }
        let runs = runner.build();
        assert(raws(decode_runs(runs@)) =~= Seq::new(
            CHUNK_AREA as nat,
            |i: int| compact_raw_of(Pixel { flags: PixelFlags::Normal, material: (i % 512) as u16 }),
        ));
        ChunkData { runs }
    }

    /// Writes the chunk data into a chunk: every known pixel of the data is
    /// written, runs are clamped at the end of the chunk.
    pub fn apply_to_chunk(&self, chunk: &mut Chunk)
        ensures
            final(chunk).raw_pixels() == painted(old(chunk).raw_pixels(), raws(decode_runs(self.runs@))),
            final(chunk).changed_marks() == painted_marks(
                old(chunk).raw_pixels(),
                old(chunk).changed_marks(),
                raws(decode_runs(self.runs@)),
            ),
    {
        paint_runs(&self.runs, chunk);
    }

    /// Replaces this chunk data by itself with `delta` painted over it, in
    /// canonical run-length form.
    pub fn apply_delta(&mut self, delta: ChunkData)
        ensures
            raws(decode_runs(final(self).runs@)) == painted(
                painted(unknown_chunk(), raws(decode_runs(old(self).runs@))),
                raws(decode_runs(delta.runs@)),
            ),
            runs_canonical(final(self).runs@),
    {
        let mut chunk = Chunk::default();
        self.apply_to_chunk(&mut chunk);
        paint_runs(&delta.runs, &mut chunk);
        *self = chunk.to_chunk_data();
    }
}

/// Position of a chunk in chunk units.
#[derive(Debug, Clone, Copy, PartialEq, Eq, Structural, Hash)]
pub struct ChunkCoord(pub i32, pub i32);

/// The integer under which a chunk is stored: distinct coordinates get
/// distinct keys.
pub open spec fn coord_key(c: ChunkCoord) -> u64 {
    ((c.0 as int + 0x8000_0000) * 0x1_0000_0000 + (c.1 as int + 0x8000_0000)) as u64
}

fn key_of(c: ChunkCoord) -> (k: u64)
    ensures
        k == coord_key(c),
{
    let hi = (c.0 as i64 + 0x8000_0000) as u64;
    let lo = (c.1 as i64 + 0x8000_0000) as u64;
    hi * 0x1_0000_0000 + lo
}

/// Storage keys tell chunks apart.
pub proof fn lemma_key_injective(a: ChunkCoord, b: ChunkCoord)
    ensures
        coord_key(a) == coord_key(b) <==> a == b,
{
    let ha = a.0 as int + 0x8000_0000;
    let la = a.1 as int + 0x8000_0000;
    let hb = b.0 as int + 0x8000_0000;
    let lb = b.1 as int + 0x8000_0000;
    assert(0 <= ha * 0x1_0000_0000 + la <= u64::MAX);
    assert(0 <= hb * 0x1_0000_0000 + lb <= u64::MAX);
    if ha * 0x1_0000_0000 + la == hb * 0x1_0000_0000 + lb {
        if ha < hb {
            assert(ha * 0x1_0000_0000 + 0x1_0000_0000 <= hb * 0x1_0000_0000);
        } else if hb < ha {
            assert(hb * 0x1_0000_0000 + 0x1_0000_0000 <= ha * 0x1_0000_0000);
        }
    }
}

/// A set of chunk coordinates that remembers the order of insertion.
pub struct ChunkCoordSet {
    items: Vec<ChunkCoord>,
}

impl View for ChunkCoordSet {
    type V = Set<ChunkCoord>;

    closed spec fn view(&self) -> Set<ChunkCoord> {
        self.items@.to_set()
    }
}

impl ChunkCoordSet {
    /// Each member occurs once in the order.
    pub closed spec fn wf(self) -> bool {
        self.items@.no_duplicates()
    }

    /// The members in insertion order; each occurs once.
    pub closed spec fn order(self) -> Seq<ChunkCoord> {
        self.items@
    }

    pub proof fn lemma_order(self)
        ensures
            self.order().to_set() == self@,
    {
    }

    pub proof fn lemma_distinct_order(self)
        requires
            self.wf(),
        ensures
            self.order().no_duplicates(),
    {
    }

    pub fn new() -> (r: ChunkCoordSet)
        ensures
            r.wf(),
            r@ == Set::<ChunkCoord>::empty(),
            r.order() == Seq::<ChunkCoord>::empty(),
    {
        let r = ChunkCoordSet { items: Vec::new() };
        assert(r.items@.to_set() =~= Set::<ChunkCoord>::empty());
        r
    }

    pub fn len(&self) -> (r: usize)
        ensures
            r == self.order().len(),
    {
        self.items.len()
    }

    pub fn is_empty(&self) -> (r: bool)
        ensures
            r == (self@ == Set::<ChunkCoord>::empty()),
    {
        if self.items.len() == 0 {
            assert(self.items@.to_set() =~= Set::<ChunkCoord>::empty());
            true
        } else {
            assert(self.items@.to_set().contains(self.items@[0]));
            false
        }
    }

    /// The member at position `i` of the insertion order.
    pub fn get(&self, i: usize) -> (r: ChunkCoord)
        requires
            i < self.order().len(),
        ensures
            r == self.order()[i as int],
    {
        self.items[i]
    }

    fn index_of(&self, c: &ChunkCoord) -> (r: Option<usize>)
        ensures
            match r {
                Some(i) => i < self.order().len() && self.order()[i as int] == *c,
                None => !self@.contains(*c),
            },
    {
        let mut i: usize = 0;
        while i < self.items.len()
            invariant
                i <= self.items@.len(),
                forall|j: int| 0 <= j < i ==> self.items@[j] != *c,
            decreases self.items@.len() - i,
        {
            if self.items[i] == *c {
                return Some(i);
            }
            i = i + 1;
        }
        None
    }

    pub fn contains(&self, c: &ChunkCoord) -> (r: bool)
        ensures
            r == self@.contains(*c),
    {
        self.index_of(c).is_some()
    }

    /// Adds a member; an absent coordinate goes to the end of the order.
    pub fn insert(&mut self, c: ChunkCoord) -> (r: bool)
        requires
            old(self).wf(),
        ensures
            final(self).wf(),
            final(self)@ == old(self)@.insert(c),
            r == !old(self)@.contains(c),
            final(self).order() == if r { old(self).order().push(c) } else { old(self).order() },
    {
        if self.contains(&c) {
            false
        } else {
            self.items.push(c);
            assert forall|x: ChunkCoord| self.items@.contains(x) <==> (old(self).items@.contains(x)
                || x == c) by {
                if self.items@.contains(x) {
                    let j = choose|j: int| 0 <= j < self.items@.len() && self.items@[j] == x;
                    if j < old(self).items@.len() {
                        assert(old(self).items@[j] == x);
                    }
                }
                if old(self).items@.contains(x) {
                    let j = choose|j: int| 0 <= j < old(self).items@.len() && old(self).items@[j] == x;
                    assert(self.items@[j] == x);
                }
                if x == c {
                    assert(self.items@[self.items@.len() - 1] == x);
                }
            }
            assert(self.items@.to_set() =~= old(self).items@.to_set().insert(c));
            assert forall|a: int, b: int| 0 <= a < b < self.items@.len() implies self.items@[a]
                != self.items@[b] by {
                if b == self.items@.len() - 1 {
                    assert(old(self).items@.contains(self.items@[a]));
                }
            }
            true
        }
    }

    /// Removes a member, keeping the order of the others.
    pub fn remove(&mut self, c: &ChunkCoord) -> (r: bool)
        requires
            old(self).wf(),
        ensures
            final(self).wf(),
            final(self)@ == old(self)@.remove(*c),
            r == old(self)@.contains(*c),
    {
        match self.index_of(c) {
            Some(i) => {
                let ghost old_items = self.items@;
                self.items.remove(i);
                proof {
                    lemma_remove_distinct(old_items, i as int);
                }
                true
            },
            None => {
                proof {
                    assert(self.items@.to_set().remove(*c) =~= self.items@.to_set());
                }
                false
            },
        }
    }

    pub fn clear(&mut self)
        ensures
            final(self).wf(),
            final(self)@ == Set::<ChunkCoord>::empty(),
            final(self).order() == Seq::<ChunkCoord>::empty(),
    {
        self.items.clear();
        assert(self.items@.to_set() =~= Set::<ChunkCoord>::empty());
    }
}

proof fn lemma_remove_distinct(s: Seq<ChunkCoord>, i: int)
    requires
        0 <= i < s.len(),
        s.no_duplicates(),
    ensures
        s.remove(i).no_duplicates(),
        s.remove(i).to_set() == s.to_set().remove(s[i]),
{
    let c = s[i];
    let r = s.remove(i);
    assert forall|a: int, b: int| 0 <= a < b < r.len() implies r[a] != r[b] by {
        let a2 = if a < i { a } else { a + 1 };
        let b2 = if b < i { b } else { b + 1 };
        assert(r[a] == s[a2] && r[b] == s[b2]);
    }
    assert forall|x: ChunkCoord| r.contains(x) <==> s.to_set().remove(c).contains(x) by {
        if r.contains(x) {
            let j = choose|j: int| 0 <= j < r.len() && r[j] == x;
            let j2 = if j < i { j } else { j + 1 };
            assert(s[j2] == x);
            assert(j2 != i);
        }
        if s.to_set().remove(c).contains(x) {
            let j = choose|j: int| 0 <= j < s.len() && s[j] == x;
            assert(j != i);
            let j2 = if j < i { j } else { j - 1 };
            assert(r[j2] == x);
        }
    }
    assert(r.to_set() =~= s.to_set().remove(c));
}

/// The optional raw values of a sequence of optional compact pixels.
pub open spec fn opt_raws(s: Seq<Option<CompactPixel>>) -> Seq<Option<u16>> {
    s.map_values(
        |c: Option<CompactPixel>|
            match c {
                Some(p) => Some(p.raw_value()),
                None => None,
            },
    )
}

/// The chunk pixels after writing every present pixel of `d` over `base`.
pub open spec fn written(base: Seq<u16>, d: Seq<Option<u16>>) -> Seq<u16> {
    Seq::new(
        base.len(),
        |p: int|
            if p < d.len() && d[p] is Some {
                d[p]->Some_0
            } else {
                base[p]
            },
    )
}

/// The change marks after writing `d`: every written pixel is marked.
pub open spec fn written_marks(marks: Seq<bool>, d: Seq<Option<u16>>) -> Seq<bool> {
    Seq::new(marks.len(), |p: int| marks[p] || (p < d.len() && d[p] is Some))
}

proof fn lemma_written_extend(base: Seq<u16>, marks: Seq<bool>, d1: Seq<Option<u16>>, d2: Seq<Option<u16>>)
    requires
        d1.len() >= base.len(),
        marks.len() == base.len(),
    ensures
        written(base, d1 + d2) == written(base, d1),
        written_marks(marks, d1 + d2) == written_marks(marks, d1),
{
    assert(written(base, d1 + d2) =~= written(base, d1));
    assert(written_marks(marks, d1 + d2) =~= written_marks(marks, d1));
}

/// Writes the present pixels of the runs into the chunk and marks each of
/// them changed, clamping the runs at the end of the chunk.
fn write_delta_runs(runs: &Vec<PixelRun<Option<CompactPixel>>>, chunk: &mut Chunk)
    ensures
        final(chunk).raw_pixels() == written(old(chunk).raw_pixels(), opt_raws(decode_runs(runs@))),
        final(chunk).changed_marks() == written_marks(
            old(chunk).changed_marks(),
            opt_raws(decode_runs(runs@)),
        ),
{
    let ghost base = chunk.raw_pixels();
    let ghost marks0 = chunk.changed_marks();
    proof {
        old(chunk).lemma_lengths();
    }
    let mut offset: usize = 0;
    let mut i: usize = 0;
    while i < runs.len() && offset < CHUNK_AREA
        invariant
            i <= runs.len(),
            offset <= CHUNK_AREA,
            offset < CHUNK_AREA ==> offset == runs_total(runs@.take(i as int)),
            offset == CHUNK_AREA ==> runs_total(runs@.take(i as int)) >= CHUNK_AREA,
            base.len() == CHUNK_AREA,
            marks0.len() == CHUNK_AREA,
            chunk.raw_pixels() == written(base, opt_raws(decode_runs(runs@.take(i as int)))),
            chunk.changed_marks() == written_marks(marks0, opt_raws(decode_runs(runs@.take(i as int)))),
        decreases runs.len() - i,
    {
        let run = runs[i];
        let ghost d0 = opt_raws(decode_runs(runs@.take(i as int)));
        let ghost rep = Seq::new(run.length as nat, |_k: int| run.data);
        proof {
            assert(runs@.take(i + 1) =~= runs@.take(i as int).push(run));
            lemma_decode_push(runs@.take(i as int), run);
            lemma_decode_len(runs@.take(i as int));
            assert(d0.len() == offset);
        }
        let room = CHUNK_AREA - offset;
        let len: usize = if (run.length as usize) < room { run.length as usize } else { room };
        let start = offset;
        match run.data {
            Some(pixel) => {
                let mut j: usize = 0;
                while j < len
                    invariant
                        j <= len,
                        len <= room,
                        room == CHUNK_AREA - start,
                        start < CHUNK_AREA,
                        offset == start + j,
                        len <= run.length,
                        run.data == Some(pixel),
                        rep == Seq::new(run.length as nat, |_k: int| run.data),
                        d0.len() == start,
                        base.len() == CHUNK_AREA,
                        marks0.len() == CHUNK_AREA,
                        chunk.raw_pixels() == written(base, d0 + opt_raws(rep.take(j as int))),
                        chunk.changed_marks() == written_marks(marks0, d0 + opt_raws(rep.take(j as int))),
                    decreases len - j,
                {
                    proof {
                        chunk.lemma_lengths();
                        assert((d0 + opt_raws(rep.take(j as int))).len() == offset);
                    }
                    chunk.set_compact_pixel(offset, pixel);
                    chunk.mark_changed(offset);
                    proof {
                        assert(rep.take(j + 1) =~= rep.take(j as int).push(run.data));
                        assert(opt_raws(rep.take(j + 1)) =~= opt_raws(rep.take(j as int)).push(
                            Some(pixel.raw_value()),
                        ));
                        let dn = d0 + opt_raws(rep.take(j + 1));
                        assert(dn =~= (d0 + opt_raws(rep.take(j as int))).push(Some(pixel.raw_value())));
                        assert(chunk.raw_pixels() =~= written(base, dn));
                        assert(chunk.changed_marks() =~= written_marks(marks0, dn));
                    }
                    offset = offset + 1;
                    j = j + 1;
                }
                proof {
                    let dfull = d0 + opt_raws(rep);
                    if len == run.length {
                        assert(rep.take(len as int) =~= rep);
                    } else {
                        assert(dfull =~= (d0 + opt_raws(rep.take(len as int))) + opt_raws(
                            rep.skip(len as int),
                        ));
                        lemma_written_extend(
                            base,
                            marks0,
                            d0 + opt_raws(rep.take(len as int)),
                            opt_raws(rep.skip(len as int)),
                        );
                    }
                }
            },
            None => {
                proof {
                    let dfull = d0 + opt_raws(rep);
                    assert forall|p: int| 0 <= p < dfull.len() && p >= d0.len() implies dfull[p]
                        is None by {
                        assert(rep[p - d0.len()] == run.data);
                    }
                    assert(written(base, dfull) =~= written(base, d0));
                    assert(written_marks(marks0, dfull) =~= written_marks(marks0, d0));
                }
                offset = offset + len;
            },
        }
        proof {
            assert(opt_raws(decode_runs(runs@.take(i + 1))) =~= d0 + opt_raws(rep));
            lemma_decode_len(runs@.take(i + 1));
        }
        i = i + 1;
    }
    proof {
        lemma_decode_prefix(runs@, i as int);
        let d1 = opt_raws(decode_runs(runs@.take(i as int)));
        let d2 = opt_raws(decode_runs(runs@.skip(i as int)));
        assert(opt_raws(decode_runs(runs@)) =~= d1 + d2);
        if i == runs.len() {
            assert(runs@.take(i as int) =~= runs@);
        } else {
            lemma_decode_len(runs@.take(i as int));
            lemma_written_extend(base, marks0, d1, d2);
        }
    }
}

/// Contains a diff, only pixels that were updated, for a given chunk.
pub struct ChunkDelta {
    pub chunk_coord: ChunkCoord,
    pub runs: Arc<Vec<PixelRun<Option<CompactPixel>>>>,
}

/// Raw pixels the game gets for a whole chunk.
pub open spec fn full_update_pixels(raw: Seq<u16>) -> Seq<RawPixel> {
    Seq::new(CHUNK_AREA as nat, |i: int| raw_of_pixel(pixel_of_raw(raw[i])))
}

/// The raw pixel that both game decoders skip.
pub open spec fn skipped_raw_pixel() -> RawPixel {
    RawPixel { material: u16::MAX, flags: 1 }
}

/// Raw pixels the game gets for the changed part of a chunk: changed pixels
/// as they are, all others skipped.
pub open spec fn changed_update_pixels(raw: Seq<u16>, marks: Seq<bool>) -> Seq<RawPixel> {
    Seq::new(
        CHUNK_AREA as nat,
        |i: int|
            if marks[i] {
                raw_of_pixel(pixel_of_raw(raw[i]))
            } else {
                skipped_raw_pixel()
            },
    )
}

/// Whether the world origin of a chunk is representable.
pub open spec fn origin_fits(c: ChunkCoord) -> bool {
    i32::MIN <= c.0 * 128 <= i32::MAX && i32::MIN <= c.1 * 128 <= i32::MAX
}

/// The header of the update that covers chunk `c`.
pub open spec fn chunk_header(c: ChunkCoord, run_count: u16) -> Header {
    Header { x: (c.0 * 128) as i32, y: (c.1 * 128) as i32, w: 127, h: 127, run_count }
}

fn chunk_origin(v: i32) -> (r: i32)
    requires
        i32::MIN <= v * 128 <= i32::MAX,
    ensures
        r == v * 128,
{
    v * (CHUNK_SIZE as i32)
}

/// Pixels in one row of the rectangle of an update.
pub open spec fn row_len(h: Header) -> int {
    h.w as int + 1
}

/// How many pixels the rectangle of an update holds.
pub open spec fn update_capacity(h: Header) -> int {
    (h.w as int + 1) * (h.h as int + 1)
}

/// How many pixels an update writes: its runs, cut off at its rectangle.
pub open spec fn update_count(u: NoitaWorldUpdate) -> int {
    let t = runs_total(u.runs@) as int;
    if t < update_capacity(u.header) {
        t
    } else {
        update_capacity(u.header)
    }
}

/// World position of the `j`-th pixel of an update: rows of `w + 1` pixels
/// from `(x, y)`.
pub open spec fn pos_x(h: Header, j: int) -> int {
    h.x + j % row_len(h)
}

pub open spec fn pos_y(h: Header, j: int) -> int {
    h.y + j / row_len(h)
}

/// The chunk a world position falls in.
pub open spec fn chunk_of_world(x: int, y: int) -> ChunkCoord {
    ChunkCoord((x / 128) as i32, (y / 128) as i32)
}

/// The offset of a world position inside its chunk.
pub open spec fn offset_of_world(x: int, y: int) -> int {
    x % 128 + (y % 128) * 128
}

/// The chunk of the `j`-th pixel of an update.
pub open spec fn chunk_of_index(h: Header, j: int) -> ChunkCoord {
    chunk_of_world(pos_x(h, j), pos_y(h, j))
}

/// The offset of the `j`-th pixel of an update in its chunk.
pub open spec fn offset_of_index(h: Header, j: int) -> int {
    offset_of_world(pos_x(h, j), pos_y(h, j))
}

/// Which of the first `n` pixels of an update lands on offset `o` of chunk `c`.
pub open spec fn writer_index(h: Header, n: int, c: ChunkCoord, o: int) -> Option<int> {
    let dx = c.0 * 128 + o % 128 - h.x;
    let dy = c.1 * 128 + o / 128 - h.y;
    if 0 <= dx < row_len(h) && 0 <= dy && dy * row_len(h) + dx < n {
        Some(dy * row_len(h) + dx)
    } else {
        None
    }
}

/// The pixel an update writes at its `j`-th position.
pub open spec fn update_pixel(u: NoitaWorldUpdate, j: int) -> Pixel {
    let rp = decode_runs(u.runs@)[j];
    Pixel {
        material: rp.material,
        flags: if rp.flags > 0 { PixelFlags::Fluid } else { PixelFlags::Normal },
    }
}

/// The raw value after writing `p` over `old`: only a pixel that decodes
/// differently is replaced.
pub open spec fn updated_raw(old: u16, p: Pixel) -> u16 {
    if pixel_of_raw(old) != p {
        compact_raw_of(p)
    } else {
        old
    }
}

/// The change mark after writing `p` over `old`.
pub open spec fn updated_mark(old: u16, mark: bool, p: Pixel) -> bool {
    mark || (pixel_of_raw(old) != p && compact_raw_of(p) != old)
}

/// Whether the update positions stay in the range of world coordinates.
pub open spec fn update_fits(h: Header) -> bool {
    h.x + h.w <= i32::MAX && h.y + h.h <= i32::MAX
}

/// Every written position is found again by `writer_index`.
pub proof fn lemma_writer_index_of(h: Header, n: int, j: int)
    requires
        0 <= j < n,
        n <= update_capacity(h),
        update_fits(h),
    ensures
        writer_index(h, n, chunk_of_index(h, j), offset_of_index(h, j)) == Some(j),
        0 <= offset_of_index(h, j) < CHUNK_AREA,
{
    let x = pos_x(h, j);
    let y = pos_y(h, j);
    let c = chunk_of_index(h, j);
    let o = offset_of_index(h, j);
    let rl = row_len(h);
    lemma_fundamental_div_mod(j, rl);
    lemma_mod_pos_bound(j, rl);
    lemma_fundamental_div_mod(x, 128);
    lemma_fundamental_div_mod(y, 128);
    lemma_div_pos_is_pos(j, rl);
    lemma_index_row_bound(h, j);
    assert(0 <= o < CHUNK_AREA);
    lemma_fundamental_div_mod_converse(o, 128, y % 128, x % 128);
    assert(c.0 as int == x / 128) by {
        lemma_div_bounds_i32(x);
    }
    assert(c.1 as int == y / 128) by {
        lemma_div_bounds_i32(y);
    }
    let dx = c.0 * 128 + o % 128 - h.x;
    let dy = c.1 * 128 + o / 128 - h.y;
    assert(dx == j % rl);
    assert(dy == j / rl);
    assert(dy * rl + dx == j) by (nonlinear_arith)
        requires
            j == rl * (j / rl) + j % rl,
            dx == j % rl,
            dy == j / rl,
    ;
}

/// A position that `writer_index` names is the position of that pixel.
pub proof fn lemma_writer_index_unique(h: Header, n: int, c: ChunkCoord, o: int)
    requires
        0 <= o < CHUNK_AREA,
        writer_index(h, n, c, o) is Some,
    ensures
        ({
            let j = writer_index(h, n, c, o)->Some_0;
            &&& 0 <= j < n
            &&& chunk_of_index(h, j) == c
            &&& offset_of_index(h, j) == o
        }),
{
    let rl = row_len(h);
    let dx = c.0 * 128 + o % 128 - h.x;
    let dy = c.1 * 128 + o / 128 - h.y;
    let j = dy * rl + dx;
    assert(j >= 0) by (nonlinear_arith)
        requires
            dy >= 0,
            rl > 0,
            dx >= 0,
            j == dy * rl + dx,
    ;
    lemma_fundamental_div_mod_converse(j, rl, dy, dx);
    lemma_fundamental_div_mod(o, 128);
    assert(0 <= o / 128 < 128);
    let x = pos_x(h, j);
    let y = pos_y(h, j);
    assert(x == c.0 * 128 + o % 128);
    assert(y == c.1 * 128 + o / 128);
    lemma_fundamental_div_mod_converse(x, 128, c.0 as int, o % 128);
    lemma_fundamental_div_mod_converse(y, 128, c.1 as int, o / 128);
}

proof fn lemma_index_row_bound(h: Header, j: int)
    requires
        0 <= j < update_capacity(h),
    ensures
        0 <= j / row_len(h) <= h.h,
        0 <= j % row_len(h) <= h.w,
{
    let rl = row_len(h);
    lemma_fundamental_div_mod(j, rl);
    lemma_mod_pos_bound(j, rl);
    lemma_div_pos_is_pos(j, rl);
    let q = j / rl;
    let r = j % rl;
    assert(q <= h.h) by (nonlinear_arith)
        requires
            j == rl * q + r,
            0 <= r,
            j < rl * (h.h + 1),
            rl > 0,
    ;
}

/// An update only reaches chunks that meet the rectangle it declares, however
/// many pixels its runs hold.
pub proof fn lemma_update_stays_in_rectangle(u: NoitaWorldUpdate, c: ChunkCoord)
    requires
        update_touched(u, update_count(u)).contains(c),
    ensures
        exists|px: int, py: int|
            u.header.x <= px <= u.header.x + u.header.w && u.header.y <= py <= u.header.y
                + u.header.h && #[trigger] chunk_of_world(px, py) == c,
{
    let h = u.header;
    if c == chunk_of_world(h.x as int, h.y as int) {
        assert(chunk_of_world(h.x as int, h.y as int) == c);
    } else {
        let j = choose|j: int| 0 <= j < update_count(u) && #[trigger] chunk_of_index(h, j) == c;
        assert(update_count(u) <= update_capacity(h));
        lemma_index_row_bound(h, j);
        assert(chunk_of_world(pos_x(h, j), pos_y(h, j)) == c);
    }
}

proof fn lemma_div_bounds_i32(x: int)
    requires
        i32::MIN <= x <= i32::MAX + 256,
    ensures
        i32::MIN <= x / 128 <= i32::MAX,
{
    lemma_div_is_ordered(i32::MIN as int, x, 128);
    lemma_div_is_ordered(x, i32::MAX + 256, 128);
}

/// Floor division and remainder by the chunk size.
fn split_chunk_axis(v: i32) -> (r: (i32, usize))
    ensures
        r.0 == v / 128,
        r.1 == v % 128,
{
    let shifted = (v as i64 + 0x8000_0000) as u64;
    let q = shifted / 128;
    let rem = shifted % 128;
    proof {
        let vi = v as int;
        lemma_fundamental_div_mod(vi, 128);
        lemma_fundamental_div_mod_converse(vi + 0x8000_0000, 128, vi / 128 + 0x100_0000, vi % 128);
    }
    ((q as i64 - 0x100_0000) as i32, rem as usize)
}

/// The chunk of a world position and the offset of the position in it.
pub fn get_chunk_coords(x: i32, y: i32) -> (r: (ChunkCoord, usize))
    ensures
        r.0 == chunk_of_world(x as int, y as int),
        r.1 == offset_of_world(x as int, y as int),
        r.1 < CHUNK_AREA,
{
    let (chunk_x, ox) = split_chunk_axis(x);
    let (chunk_y, oy) = split_chunk_axis(y);
    let offset = ox + oy * CHUNK_SIZE;
    (ChunkCoord(chunk_x, chunk_y), offset)
}

/// Writes `pixel` at `offset` if the chunk holds a pixel that decodes
/// differently; returns whether it did.
fn set_pixel_if_different(pixel: Pixel, chunk: &mut Chunk, offset: usize) -> (r: bool)
    requires
        offset < CHUNK_AREA,
    ensures
        r == (pixel_of_raw(old(chunk).raw_pixels()[offset as int]) != pixel),
        final(chunk).raw_pixels() == old(chunk).raw_pixels().update(
            offset as int,
            updated_raw(old(chunk).raw_pixels()[offset as int], pixel),
        ),
        final(chunk).changed_marks() == old(chunk).changed_marks().update(
            offset as int,
            updated_mark(
                old(chunk).raw_pixels()[offset as int],
                old(chunk).changed_marks()[offset as int],
                pixel,
            ),
        ),
{
    proof {
        old(chunk).lemma_lengths();
    }
    let current = chunk.pixel(offset);
    if !current.same(&pixel) {
        chunk.set_pixel(offset, pixel);
        proof {
            assert(chunk.changed_marks() =~= old(chunk).changed_marks().update(
                offset as int,
                updated_mark(
                    old(chunk).raw_pixels()[offset as int],
                    old(chunk).changed_marks()[offset as int],
                    pixel,
                ),
            ));
        }
        true
    } else {
        proof {
            assert(chunk.raw_pixels() =~= old(chunk).raw_pixels().update(
                offset as int,
                updated_raw(old(chunk).raw_pixels()[offset as int], pixel),
            ));
            assert(chunk.changed_marks() =~= old(chunk).changed_marks().update(
                offset as int,
                updated_mark(
                    old(chunk).raw_pixels()[offset as int],
                    old(chunk).changed_marks()[offset as int],
                    pixel,
                ),
            ));
        }
        false
    }
}

/// The chunks that the first `k` pixels of an update fall in, together with
/// the chunk of the update's origin.
pub open spec fn update_touched(u: NoitaWorldUpdate, k: int) -> Set<ChunkCoord> {
    Set::new(
        |c: ChunkCoord|
            c == chunk_of_world(u.header.x as int, u.header.y as int) || exists|j: int|
                0 <= j < k && #[trigger] chunk_of_index(u.header, j) == c,
    )
}

/// The chunks that the first `k` pixels of an update are written to, whether
/// or not a pixel there changes.
#[verifier::opaque]
pub open spec fn update_written(u: NoitaWorldUpdate, k: int) -> Set<ChunkCoord> {
    Set::new(|c: ChunkCoord| exists|j: int| 0 <= j < k && #[trigger] chunk_of_index(u.header, j) == c)
}

/// Where `apply_noita_update` is writing: the chunk it holds outside the map,
/// and whether a pixel was written to it since the cursor got there.
struct UpdateCursor {
    coord: ChunkCoord,
    chunk: Chunk,
    dirty: bool,
}

/// The proxy's model of the world.
pub struct WorldModel {
    chunks: HashMap<u64, Chunk>,
    /// Chunks which were written to, by any write, not just those that
    /// actually changed a pixel.
    updated_chunks: ChunkCoordSet,
    /// Chunks that were written by `apply_chunk_data`, i.e. a whole-chunk
    /// snapshot, and so must be handed to the game in full.
    full_write_chunks: ChunkCoordSet,
}

impl WorldModel {
    /// The chunks of the model.
    pub closed spec fn chunk_map(self) -> Map<ChunkCoord, Chunk> {
        Map::new(
            |c: ChunkCoord| self.chunks@.contains_key(coord_key(c)),
            |c: ChunkCoord| self.chunks@[coord_key(c)],
        )
    }

    /// Chunks written since the change tracking was last reset.
    pub closed spec fn updated(self) -> Set<ChunkCoord> {
        self.updated_chunks@
    }

    /// The written chunks in the order they were first written.
    pub closed spec fn updated_order(self) -> Seq<ChunkCoord> {
        self.updated_chunks.order()
    }

    /// Chunks written by a whole-chunk snapshot since the last reset.
    pub closed spec fn full_writes(self) -> Set<ChunkCoord> {
        self.full_write_chunks@
    }

    /// Snapshot chunks are written chunks, and written chunks exist.
    pub closed spec fn wf(self) -> bool {
        &&& self.updated_chunks.wf()
        &&& self.full_write_chunks.wf()
        &&& self.full_write_chunks@.subset_of(self.updated_chunks@)
        &&& forall|c: ChunkCoord| #[trigger]
            self.updated_chunks@.contains(c) ==> self.chunks@.contains_key(coord_key(c))
    }

    /// Raw pixels of chunk `c`, unknown when the chunk does not exist.
    pub open spec fn raw_at(self, c: ChunkCoord) -> Seq<u16> {
        if self.chunk_map().contains_key(c) {
            self.chunk_map()[c].raw_pixels()
        } else {
            unknown_chunk()
        }
    }

    /// Change marks of chunk `c`, all clear when the chunk does not exist.
    pub open spec fn marks_at(self, c: ChunkCoord) -> Seq<bool> {
        if self.chunk_map().contains_key(c) {
            self.chunk_map()[c].changed_marks()
        } else {
            Seq::new(CHUNK_AREA as nat, |_i: int| false)
        }
    }

    /// What the game gets for chunk `c`, if anything: snapshot chunks in full,
    /// other chunks with changed pixels as just those pixels.
    pub open spec fn emission(self, c: ChunkCoord) -> Option<Seq<RawPixel>> {
        if self.full_writes().contains(c) {
            Some(full_update_pixels(self.raw_at(c)))
        } else if self.chunk_map().contains_key(c) && exists|i: int|
            0 <= i < CHUNK_AREA && #[trigger] self.marks_at(c)[i] {
            Some(changed_update_pixels(self.raw_at(c), self.marks_at(c)))
        } else {
            None
        }
    }

    /// A model with no written chunk hands the game nothing: once change
    /// tracking is reset, no chunk is emitted until something is written again.
    pub proof fn lemma_clean_model_emits_nothing(self)
        requires
            self.wf(),
            self.updated() == Set::<ChunkCoord>::empty(),
        ensures
            self.emitted_coords(self.updated_order()).len() == 0,
    {
        self.updated_chunks.lemma_order();
        if self.updated_order().len() > 0 {
            assert(self.updated_order().to_set().contains(self.updated_order()[0]));
        }
        assert(self.updated_order().len() == 0);
    }

    /// Every emitted chunk is a written chunk, and a chunk written whole is
    /// emitted whole.
    pub proof fn lemma_emitted_are_written(self, s: Seq<ChunkCoord>, i: int)
        requires
            0 <= i < self.emitted_coords(s).len(),
        ensures
            s.contains(self.emitted_coords(s)[i]),
            self.emission(self.emitted_coords(s)[i]) is Some,
            self.full_writes().contains(self.emitted_coords(s)[i]) ==> self.emission(self.emitted_coords(s)[i])
                == Some(full_update_pixels(self.raw_at(self.emitted_coords(s)[i]))),
        decreases s.len(),
    {
        if s.len() > 0 {
            let rest = self.emitted_coords(s.drop_last());
            if self.emission(s.last()) is Some && i == rest.len() {
                assert(s[s.len() - 1] == s.last());
            } else {
                self.lemma_emitted_are_written(s.drop_last(), i);
                let c = self.emitted_coords(s)[i];
                assert(s.drop_last().contains(c));
                let k = choose|k: int| 0 <= k < s.drop_last().len() && s.drop_last()[k] == c;
                assert(s[k] == c);
            }
        }
    }


    /// The coordinates of `s` for which something is emitted, in order.
    pub open spec fn emitted_coords(self, s: Seq<ChunkCoord>) -> Seq<ChunkCoord>
        decreases s.len(),
    {
        if s.len() == 0 {
            Seq::empty()
        } else if self.emission(s.last()) is Some {
            self.emitted_coords(s.drop_last()).push(s.last())
        } else {
            self.emitted_coords(s.drop_last())
        }
    }

    proof fn lemma_chunk_map_remove(self, m: Map<u64, Chunk>, c: ChunkCoord)
        requires
            m == self.chunks@.remove(coord_key(c)),
        ensures
            Map::new(|x: ChunkCoord| m.contains_key(coord_key(x)), |x: ChunkCoord| m[coord_key(x)])
                == self.chunk_map().remove(c),
    {
        let a = Map::new(|x: ChunkCoord| m.contains_key(coord_key(x)), |x: ChunkCoord| m[coord_key(x)]);
        assert forall|x: ChunkCoord| #[trigger] a.contains_key(x) == self.chunk_map().remove(c).contains_key(x) by {
            lemma_key_injective(x, c);
        }
        assert(a =~= self.chunk_map().remove(c));
    }

    proof fn lemma_chunk_map_insert(self, m: Map<u64, Chunk>, c: ChunkCoord, v: Chunk)
        requires
            m == self.chunks@.insert(coord_key(c), v),
        ensures
            Map::new(|x: ChunkCoord| m.contains_key(coord_key(x)), |x: ChunkCoord| m[coord_key(x)])
                == self.chunk_map().insert(c, v),
    {
        let a = Map::new(|x: ChunkCoord| m.contains_key(coord_key(x)), |x: ChunkCoord| m[coord_key(x)]);
        assert forall|x: ChunkCoord| #[trigger] a.contains_key(x) == self.chunk_map().insert(c, v).contains_key(x) by {
            lemma_key_injective(x, c);
        }
        assert forall|x: ChunkCoord| a.contains_key(x) implies #[trigger] a[x] == self.chunk_map().insert(c, v)[x] by {
            lemma_key_injective(x, c);
        }
        assert(a =~= self.chunk_map().insert(c, v));
    }

    /// Takes chunk `c` out of the map, or a fresh chunk if there is none.
    fn take_chunk(&mut self, c: ChunkCoord) -> (r: Chunk)
        ensures
            final(self).chunk_map() == old(self).chunk_map().remove(c),
            final(self).updated_chunks == old(self).updated_chunks,
            final(self).full_write_chunks == old(self).full_write_chunks,
            r.raw_pixels() == old(self).raw_at(c),
            r.changed_marks() == old(self).marks_at(c),
    {
        let k = key_of(c);
        let ghost before = *self;
        let removed = self.chunks.remove(&k);
        proof {
            before.lemma_chunk_map_remove(self.chunks@, c);
        }
        match removed {
            Some(chunk) => chunk,
            None => Chunk::default(),
        }
    }

    /// Puts chunk `c` into the map.
    fn put_chunk(&mut self, c: ChunkCoord, chunk: Chunk)
        ensures
            final(self).chunk_map() == old(self).chunk_map().insert(c, chunk),
            final(self).updated_chunks == old(self).updated_chunks,
            final(self).full_write_chunks == old(self).full_write_chunks,
    {
        let k = key_of(c);
        let ghost before = *self;
        self.chunks.insert(k, chunk);
        proof {
            before.lemma_chunk_map_insert(self.chunks@, c, chunk);
        }
    }

    /// Looks chunk `c` up.
    fn chunk_ref(&self, c: ChunkCoord) -> (r: Option<&Chunk>)
        ensures
            r is Some <==> self.chunk_map().contains_key(c),
            r matches Some(ch) ==> *ch == self.chunk_map()[c],
    {
        let k = key_of(c);
        self.chunks.get(&k)
    }

    /// Looks a chunk up, for reading.
    pub fn chunk(&self, c: &ChunkCoord) -> (r: Option<&Chunk>)
        ensures
            r is Some <==> self.chunk_map().contains_key(*c),
            r matches Some(ch) ==> *ch == self.chunk_map()[*c],
    {
        self.chunk_ref(*c)
    }

    /// The written chunks.
    pub fn updated_chunks(&self) -> (r: &ChunkCoordSet)
        ensures
            r@ == self.updated(),
            r.order() == self.updated_order(),
    {
        &self.updated_chunks
    }

    /// The chunks written by a snapshot.
    pub fn full_write_chunks(&self) -> (r: &ChunkCoordSet)
        ensures
            r@ == self.full_writes(),
    {
        &self.full_write_chunks
    }

    /// Installs a whole-chunk snapshot. The chunk counts as written and as a
    /// snapshot: it has to be handed to the game whole.
    pub fn apply_chunk_data(&mut self, chunk: ChunkCoord, chunk_data: &ChunkData)
        requires
            old(self).wf(),
        ensures
            final(self).wf(),
            final(self).updated() == old(self).updated().insert(chunk),
            final(self).full_writes() == old(self).full_writes().insert(chunk),
            final(self).chunk_map().dom() == old(self).chunk_map().dom().insert(chunk),
            final(self).chunk_map().remove(chunk) == old(self).chunk_map().remove(chunk),
            final(self).raw_at(chunk) == painted(old(self).raw_at(chunk), raws(decode_runs(chunk_data.runs@))),
            final(self).marks_at(chunk) == painted_marks(
                old(self).raw_at(chunk),
                old(self).marks_at(chunk),
                raws(decode_runs(chunk_data.runs@)),
            ),
    {
        self.updated_chunks.insert(chunk);
        self.full_write_chunks.insert(chunk);
        let mut ch = self.take_chunk(chunk);
        chunk_data.apply_to_chunk(&mut ch);
        self.put_chunk(chunk, ch);
        proof {
            assert(self.chunk_map().dom() =~= old(self).chunk_map().dom().insert(chunk));
            assert(self.chunk_map().remove(chunk) =~= old(self).chunk_map().remove(chunk));
            assert forall|c: ChunkCoord| #[trigger]
                self.updated_chunks@.contains(c) implies self.chunks@.contains_key(coord_key(c)) by {
                if c != chunk {
                    assert(old(self).updated_chunks@.contains(c));
                    assert(old(self).chunk_map().contains_key(c));
                    assert(self.chunk_map().contains_key(c));
                } else {
                    assert(self.chunk_map().contains_key(c));
                }
            }
        }
    }

    /// Writes a delta into its chunk. Every pixel the delta carries is written
    /// and marked changed, even where the stored pixel already agrees.
    pub fn apply_chunk_delta(&mut self, delta: &ChunkDelta)
        requires
            old(self).wf(),
        ensures
            final(self).wf(),
            final(self).updated() == old(self).updated().insert(delta.chunk_coord),
            final(self).full_writes() == old(self).full_writes(),
            final(self).chunk_map().dom() == old(self).chunk_map().dom().insert(delta.chunk_coord),
            final(self).chunk_map().remove(delta.chunk_coord) == old(self).chunk_map().remove(
                delta.chunk_coord,
            ),
            final(self).raw_at(delta.chunk_coord) == written(
                old(self).raw_at(delta.chunk_coord),
                opt_raws(decode_runs(delta.runs@)),
            ),
            final(self).marks_at(delta.chunk_coord) == written_marks(
                old(self).marks_at(delta.chunk_coord),
                opt_raws(decode_runs(delta.runs@)),
            ),
    {
        let coord = delta.chunk_coord;
        self.updated_chunks.insert(coord);
        let mut ch = self.take_chunk(coord);
        write_delta_runs(&*delta.runs, &mut ch);
        self.put_chunk(coord, ch);
        proof {
            assert(self.chunk_map().dom() =~= old(self).chunk_map().dom().insert(coord));
            assert(self.chunk_map().remove(coord) =~= old(self).chunk_map().remove(coord));
            assert forall|c: ChunkCoord| #[trigger]
                self.updated_chunks@.contains(c) implies self.chunks@.contains_key(coord_key(c)) by {
                if c != coord {
                    assert(old(self).updated_chunks@.contains(c));
                    assert(old(self).chunk_map().contains_key(c));
                    assert(self.chunk_map().contains_key(c));
                } else {
                    assert(self.chunk_map().contains_key(c));
                }
            }
        }
    }

    /// A snapshot of chunk `chunk`, if it exists.
    pub fn get_chunk_data(&self, chunk: ChunkCoord) -> (r: Option<ChunkData>)
        ensures
            r is Some <==> self.chunk_map().contains_key(chunk),
            r matches Some(d) ==> raws(decode_runs(d.runs@)) == self.raw_at(chunk) && runs_canonical(
                d.runs@,
            ),
    {
        match self.chunk_ref(chunk) {
            Some(ch) => Some(ch.to_chunk_data()),
            None => None,
        }
    }

    /// The pixels of chunk `chunk_coord` that are marked changed, or all of them
    /// when `ignore_changed` is set; `None` if the chunk does not exist.
    pub fn get_chunk_delta(&self, chunk_coord: ChunkCoord, ignore_changed: bool) -> (r: Option<ChunkDelta>)
        ensures
            r is Some <==> self.chunk_map().contains_key(chunk_coord),
            r matches Some(d) ==> {
                &&& d.chunk_coord == chunk_coord
                &&& opt_raws(decode_runs(d.runs@)) == Seq::new(
                    CHUNK_AREA as nat,
                    |i: int|
                        if ignore_changed || self.marks_at(chunk_coord)[i] {
                            Some(self.raw_at(chunk_coord)[i])
                        } else {
                            None
                        },
                )
                &&& runs_canonical(d.runs@)
            },
    {
        let chunk = match self.chunk_ref(chunk_coord) {
            Some(ch) => ch,
            None => {
                return None;
            },
        };
        let ghost want = Seq::new(
            CHUNK_AREA as nat,
            |i: int|
                if ignore_changed || self.marks_at(chunk_coord)[i] {
                    Some(self.raw_at(chunk_coord)[i])
                } else {
                    None
                },
        );
        let mut runner: PixelRunner<Option<CompactPixel>> = PixelRunner::new();
        let mut i: usize = 0;
        while i < CHUNK_AREA
            invariant
                i <= CHUNK_AREA,
                runner.wf(),
                runner.pushed().len() == i,
                *chunk == self.chunk_map()[chunk_coord],
                self.chunk_map().contains_key(chunk_coord),
                want == Seq::new(
                    CHUNK_AREA as nat,
                    |i: int|
                        if ignore_changed || self.marks_at(chunk_coord)[i] {
                            Some(self.raw_at(chunk_coord)[i])
                        } else {
                            None
                        },
                ),
                forall|j: int| 0 <= j < i ==> #[trigger] opt_raws(runner.pushed())[j] == want[j],
            decreases CHUNK_AREA - i,
        {
            let item = if ignore_changed || chunk.changed(i) {
                Some(chunk.compact_pixel(i))
            } else {
                None
            };
            proof {
                runner.lemma_can_put(item);
            }
            let ghost before = runner.pushed();
            runner.put_pixel(item);
            proof {
                assert forall|j: int| 0 <= j < i + 1 implies #[trigger] opt_raws(runner.pushed())[j]
                    == want[j] by {
                    if j < i {
                        assert(runner.pushed()[j] == before[j]);
                        assert(opt_raws(before)[j] == want[j]);
                    }
                }
            }
            i = i + 1;
        }
        let runs = runner.build();
        assert(opt_raws(decode_runs(runs@)) =~= want);
        Some(ChunkDelta { chunk_coord, runs: Arc::new(runs) })
    }

    /// Forgets a chunk entirely.
    pub fn forget_chunk(&mut self, chunk: ChunkCoord)
        requires
            old(self).wf(),
        ensures
            final(self).wf(),
            final(self).chunk_map() == old(self).chunk_map().remove(chunk),
            final(self).updated() == old(self).updated().remove(chunk),
            final(self).full_writes() == old(self).full_writes().remove(chunk),
    {
        let k = key_of(chunk);
        let ghost before = *self;
        self.chunks.remove(&k);
        proof {
            before.lemma_chunk_map_remove(self.chunks@, chunk);
        }
        self.updated_chunks.remove(&chunk);
        self.full_write_chunks.remove(&chunk);
        proof {
            assert forall|c: ChunkCoord| #[trigger]
                self.updated_chunks@.contains(c) implies self.chunks@.contains_key(coord_key(c)) by {
                assert(old(self).updated_chunks@.contains(c));
                assert(old(self).chunk_map().contains_key(c));
                assert(self.chunk_map().contains_key(c));
            }
        }
    }

    /// Serializes one whole chunk; a chunk that does not exist is all unknown.
    fn get_chunk_noita_update(&self, chunk_coord: ChunkCoord) -> (r: NoitaWorldUpdate)
        requires
            origin_fits(chunk_coord),
        ensures
            r.header == chunk_header(chunk_coord, r.runs@.len() as u16),
            decode_runs(r.runs@) == full_update_pixels(self.raw_at(chunk_coord)),
            runs_canonical(r.runs@),
    {
        let x = chunk_origin(chunk_coord.0);
        let y = chunk_origin(chunk_coord.1);
        let mut runner: PixelRunner<RawPixel> = PixelRunner::new();
        let ghost want = full_update_pixels(self.raw_at(chunk_coord));
        match self.chunk_ref(chunk_coord) {
            Some(chunk) => {
                let mut offset: usize = 0;
                while offset < CHUNK_AREA
                    invariant
                        offset <= CHUNK_AREA,
                        runner.wf(),
                        runner.pushed().len() == offset,
                        *chunk == self.chunk_map()[chunk_coord],
                        self.chunk_map().contains_key(chunk_coord),
                        want == full_update_pixels(self.raw_at(chunk_coord)),
                        forall|j: int| 0 <= j < offset ==> #[trigger] runner.pushed()[j] == want[j],
                    decreases CHUNK_AREA - offset,
                {
                    let px = chunk.pixel(offset).to_raw();
                    proof {
                        runner.lemma_can_put(px);
                    }
                    runner.put_pixel(px);
                    offset = offset + 1;
                }
            },
            None => {
                let unknown = Pixel::default().to_raw();
                let mut offset: usize = 0;
                while offset < CHUNK_AREA
                    invariant
                        offset <= CHUNK_AREA,
                        runner.wf(),
                        runner.pushed().len() == offset,
                        unknown == skipped_raw_pixel(),
                        !self.chunk_map().contains_key(chunk_coord),
                        want == full_update_pixels(self.raw_at(chunk_coord)),
                        forall|j: int| 0 <= j < offset ==> #[trigger] runner.pushed()[j] == want[j],
                    decreases CHUNK_AREA - offset,
                {
                    proof {
                        runner.lemma_can_put(unknown);
                    }
                    runner.put_pixel(unknown);
                    offset = offset + 1;
                }
            },
        }
        assert(runner.pushed() =~= want);
        runner.into_noita_update(x, y, (CHUNK_SIZE - 1) as u8, (CHUNK_SIZE - 1) as u8)
    }

    /// Serializes only the pixels marked changed, with every other pixel
    /// encoded as one the game skips. `None` when the chunk does not exist or
    /// nothing in it changed.
    fn get_changed_noita_update(&self, chunk_coord: ChunkCoord) -> (r: Option<NoitaWorldUpdate>)
        requires
            origin_fits(chunk_coord),
        ensures
            r is Some <==> (self.chunk_map().contains_key(chunk_coord) && exists|i: int|
                0 <= i < CHUNK_AREA && #[trigger] self.marks_at(chunk_coord)[i]),
            r matches Some(u) ==> {
                &&& u.header == chunk_header(chunk_coord, u.runs@.len() as u16)
                &&& decode_runs(u.runs@) == changed_update_pixels(
                    self.raw_at(chunk_coord),
                    self.marks_at(chunk_coord),
                )
                &&& runs_canonical(u.runs@)
            },
    {
        let chunk = match self.chunk_ref(chunk_coord) {
            Some(ch) => ch,
            None => {
                return None;
            },
        };
        let unknown = Pixel::default().to_raw();
        let ghost want = changed_update_pixels(self.raw_at(chunk_coord), self.marks_at(chunk_coord));
        let mut runner: PixelRunner<RawPixel> = PixelRunner::new();
        let mut any_changed = false;
        let mut offset: usize = 0;
        while offset < CHUNK_AREA
            invariant
                offset <= CHUNK_AREA,
                runner.wf(),
                runner.pushed().len() == offset,
                unknown == skipped_raw_pixel(),
                *chunk == self.chunk_map()[chunk_coord],
                self.chunk_map().contains_key(chunk_coord),
                want == changed_update_pixels(self.raw_at(chunk_coord), self.marks_at(chunk_coord)),
                forall|j: int| 0 <= j < offset ==> #[trigger] runner.pushed()[j] == want[j],
                any_changed == exists|j: int| 0 <= j < offset && #[trigger] self.marks_at(chunk_coord)[j],
            decreases CHUNK_AREA - offset,
        {
            let ghost before = any_changed;
            if chunk.changed(offset) {
                any_changed = true;
                let px = chunk.pixel(offset).to_raw();
                proof {
                    runner.lemma_can_put(px);
                }
                runner.put_pixel(px);
            } else {
                proof {
                    runner.lemma_can_put(unknown);
                }
                runner.put_pixel(unknown);
            }
            proof {
                if !any_changed {
                    assert forall|j: int| 0 <= j < offset + 1 implies !#[trigger] self.marks_at(chunk_coord)[j] by {
                        if j < offset {
                            assert(!before);
                        }
                    }
                }
            }
            offset = offset + 1;
        }
        if any_changed {
            let x = chunk_origin(chunk_coord.0);
            let y = chunk_origin(chunk_coord.1);
            assert(runner.pushed() =~= want);
            Some(runner.into_noita_update(x, y, (CHUNK_SIZE - 1) as u8, (CHUNK_SIZE - 1) as u8))
        } else {
            None
        }
    }

    /// Everything written since the last `reset_change_tracking`, as updates
    /// for the game, in the order the chunks were first written: snapshot
    /// chunks in full, chunks that only got deltas as just those deltas.
    pub fn get_all_noita_updates(&self) -> (r: Vec<NoitaWorldUpdate>)
        requires
            self.wf(),
            forall|c: ChunkCoord| #[trigger] self.updated().contains(c) ==> origin_fits(c),
        ensures
            r@.len() == self.emitted_coords(self.updated_order()).len(),
            forall|i: int|
                0 <= i < r@.len() ==> {
                    let c = #[trigger] self.emitted_coords(self.updated_order())[i];
                    &&& r@[i].header == chunk_header(c, r@[i].runs@.len() as u16)
                    &&& Some(decode_runs(r@[i].runs@)) == self.emission(c)
                    &&& runs_canonical(r@[i].runs@)
                },
    {
        let mut updates: Vec<NoitaWorldUpdate> = Vec::new();
        let n = self.updated_chunks.len();
        let ghost order = self.updated_order();
        let mut i: usize = 0;
        proof {
            self.updated_chunks.lemma_order();
        }
        while i < n
            invariant
                i <= n,
                n == order.len(),
                order == self.updated_order(),
                self.wf(),
                forall|c: ChunkCoord| #[trigger] self.updated().contains(c) ==> origin_fits(c),
                order.to_set() == self.updated(),
                updates@.len() == self.emitted_coords(order.take(i as int)).len(),
                forall|j: int|
                    0 <= j < updates@.len() ==> {
                        let c = #[trigger] self.emitted_coords(order.take(i as int))[j];
                        &&& updates@[j].header == chunk_header(c, updates@[j].runs@.len() as u16)
                        &&& Some(decode_runs(updates@[j].runs@)) == self.emission(c)
                        &&& runs_canonical(updates@[j].runs@)
                    },
            decreases n - i,
        {
            let chunk_coord = self.updated_chunks.get(i);
            proof {
                assert(order.take(i + 1).drop_last() =~= order.take(i as int));
                assert(order.take(i + 1).last() == chunk_coord);
                assert(order.contains(chunk_coord));
                assert(self.updated().contains(chunk_coord));
            }
            let ghost prev = self.emitted_coords(order.take(i as int));
            if self.full_write_chunks.contains(&chunk_coord) {
                updates.push(self.get_chunk_noita_update(chunk_coord));
            } else {
                match self.get_changed_noita_update(chunk_coord) {
                    Some(update) => updates.push(update),
                    None => {},
                }
            }
            proof {
                let now = self.emitted_coords(order.take(i + 1));
                assert forall|j: int| 0 <= j < updates@.len() implies {
                    let c = #[trigger] now[j];
                    &&& updates@[j].header == chunk_header(c, updates@[j].runs@.len() as u16)
                    &&& Some(decode_runs(updates@[j].runs@)) == self.emission(c)
                    &&& runs_canonical(updates@[j].runs@)
                } by {
                    if j < prev.len() {
                        assert(now[j] == prev[j]);
                    }
                }
            }
            i = i + 1;
        }
        assert(order.take(n as int) =~= order);
        updates
    }

    /// Forgets which pixels and chunks were written; chunk contents stay.
    pub fn reset_change_tracking(&mut self)
        requires
            old(self).wf(),
        ensures
            final(self).wf(),
            final(self).chunk_map().dom() == old(self).chunk_map().dom(),
            forall|c: ChunkCoord| #[trigger]
                final(self).chunk_map().contains_key(c) ==> final(self).raw_at(c) == old(self).raw_at(c)
                    && final(self).marks_at(c) == if old(self).updated().contains(c) {
                    Seq::new(CHUNK_AREA as nat, |_i: int| false)
                } else {
                    old(self).marks_at(c)
                },
            final(self).updated() == Set::<ChunkCoord>::empty(),
            final(self).full_writes() == Set::<ChunkCoord>::empty(),
    {
        let n = self.updated_chunks.len();
        let ghost order = self.updated_order();
        proof {
            self.updated_chunks.lemma_order();
            self.updated_chunks.lemma_distinct_order();
        }
        let mut i: usize = 0;
        while i < n
            invariant
                i <= n,
                n == order.len(),
                order == self.updated_order(),
                order.no_duplicates(),
                order.to_set() == old(self).updated(),
                self.updated_chunks == old(self).updated_chunks,
                self.full_write_chunks == old(self).full_write_chunks,
                self.chunk_map().dom() == old(self).chunk_map().dom(),
                forall|c: ChunkCoord| #[trigger] old(self).updated().contains(c) ==> old(self).chunk_map().contains_key(c),
                forall|c: ChunkCoord| #[trigger]
                    self.chunk_map().contains_key(c) ==> self.raw_at(c) == old(self).raw_at(c)
                        && self.marks_at(c) == if order.take(i as int).contains(c) {
                        Seq::new(CHUNK_AREA as nat, |_i: int| false)
                    } else {
                        old(self).marks_at(c)
                    },
            decreases n - i,
        {
            let chunk_pos = self.updated_chunks.get(i);
            proof {
                assert(order.contains(chunk_pos));
                assert(order.to_set().contains(chunk_pos));
                assert(old(self).updated().contains(chunk_pos));
                assert(self.chunk_map().contains_key(chunk_pos));
                assert(!order.take(i as int).contains(chunk_pos)) by {
                    if order.take(i as int).contains(chunk_pos) {
                        let j = choose|j: int| 0 <= j < i && order.take(i as int)[j] == chunk_pos;
                        assert(order[j] == order[i as int]);
                    }
                }
            }
            let mut ch = self.take_chunk(chunk_pos);
            ch.clear_changed();
            self.put_chunk(chunk_pos, ch);
            proof {
                assert(self.chunk_map().dom() =~= old(self).chunk_map().dom());
                assert forall|c: ChunkCoord| #[trigger] self.chunk_map().contains_key(c) implies self.raw_at(c)
                    == old(self).raw_at(c) && self.marks_at(c) == if order.take(i + 1).contains(c) {
                    Seq::new(CHUNK_AREA as nat, |_i: int| false)
                } else {
                    old(self).marks_at(c)
                } by {
                    assert(order.take(i + 1) =~= order.take(i as int).push(chunk_pos));
                    if c != chunk_pos {
                        assert(order.take(i + 1).contains(c) == order.take(i as int).contains(c));
                    } else {
                        assert(order.take(i + 1)[i as int] == c);
                    }
                }
            }
            i = i + 1;
        }
        self.updated_chunks.clear();
        self.full_write_chunks.clear();
        proof {
            assert(order.take(n as int) =~= order);
            assert forall|c: ChunkCoord| #[trigger] self.chunk_map().contains_key(c) implies (order.contains(c)
                == old(self).updated().contains(c)) by {
                assert(order.to_set().contains(c) == order.contains(c));
            }
        }
    }

    /// Raw value at offset `o` of chunk `c` once the first `k` pixels of
    /// update `u` are written over this model.
    pub open spec fn raw_after_update(self, u: NoitaWorldUpdate, k: int, c: ChunkCoord, o: int) -> u16 {
        match writer_index(u.header, k, c, o) {
            Some(j) => updated_raw(self.raw_at(c)[o], update_pixel(u, j)),
            None => self.raw_at(c)[o],
        }
    }

    /// Change mark at offset `o` of chunk `c` once the first `k` pixels of
    /// update `u` are written over this model.
    pub open spec fn mark_after_update(self, u: NoitaWorldUpdate, k: int, c: ChunkCoord, o: int) -> bool {
        match writer_index(u.header, k, c, o) {
            Some(j) => updated_mark(self.raw_at(c)[o], self.marks_at(c)[o], update_pixel(u, j)),
            None => self.marks_at(c)[o],
        }
    }

    proof fn lemma_update_step_other(self, u: NoitaWorldUpdate, k: int, c: ChunkCoord, o: int)
        requires
            0 <= k,
            k + 1 <= update_capacity(u.header),
            update_fits(u.header),
            0 <= o < CHUNK_AREA,
            !(c == chunk_of_index(u.header, k) && o == offset_of_index(u.header, k)),
        ensures
            self.raw_after_update(u, k + 1, c, o) == self.raw_after_update(u, k, c, o),
            self.mark_after_update(u, k + 1, c, o) == self.mark_after_update(u, k, c, o),
    {
        let ghost h = u.header;
        if let Some(j) = writer_index(h, k + 1, c, o) {
            lemma_writer_index_unique(h, k + 1, c, o);
            assert(j != k);
            assert(writer_index(h, k, c, o) == Some(j));
        } else {
            assert(writer_index(h, k, c, o) is None);
        }
    }

    proof fn lemma_update_step_here(self, u: NoitaWorldUpdate, k: int)
        requires
            0 <= k,
            k + 1 <= update_capacity(u.header),
            update_fits(u.header),
        ensures
            ({
                let c = chunk_of_index(u.header, k);
                let o = offset_of_index(u.header, k);
                &&& 0 <= o < CHUNK_AREA
                &&& self.raw_after_update(u, k, c, o) == self.raw_at(c)[o]
                &&& self.mark_after_update(u, k, c, o) == self.marks_at(c)[o]
                &&& self.raw_after_update(u, k + 1, c, o) == updated_raw(self.raw_at(c)[o], update_pixel(u, k))
                &&& self.mark_after_update(u, k + 1, c, o) == updated_mark(
                    self.raw_at(c)[o],
                    self.marks_at(c)[o],
                    update_pixel(u, k),
                )
                &&& update_written(u, k + 1) == update_written(u, k).insert(c)
                &&& update_touched(u, k + 1) == update_touched(u, k).insert(c)
            }),
    {
        let ghost h = u.header;
        let c = chunk_of_index(h, k);
        let o = offset_of_index(h, k);
        lemma_writer_index_of(h, k + 1, k);
        assert(writer_index(h, k, c, o) is None);
        reveal(update_written);
        let d1 = update_written(u, k + 1);
        let d0 = update_written(u, k);
        assert forall|x: ChunkCoord| d1.contains(x) == d0.insert(c).contains(x) by {
            if d1.contains(x) {
                let j = choose|j: int| 0 <= j < k + 1 && #[trigger] chunk_of_index(h, j) == x;
                if j < k {
                    assert(d0.contains(x));
                }
            }
            if d0.contains(x) {
                let j = choose|j: int| 0 <= j < k && #[trigger] chunk_of_index(h, j) == x;
                assert(d1.contains(x));
            }
            if x == c {
                assert(chunk_of_index(h, k) == x);
                assert(d1.contains(x));
            }
        }
        assert(d1 =~= d0.insert(c));
        let t1 = update_touched(u, k + 1);
        let t0 = update_touched(u, k);
        assert forall|x: ChunkCoord| t1.contains(x) == t0.insert(c).contains(x) by {
            if t1.contains(x) && x != chunk_of_world(h.x as int, h.y as int) {
                let j = choose|j: int| 0 <= j < k + 1 && #[trigger] chunk_of_index(h, j) == x;
                if j < k {
                    assert(t0.contains(x));
                }
            }
            if t0.contains(x) && x != chunk_of_world(h.x as int, h.y as int) {
                let j = choose|j: int| 0 <= j < k && #[trigger] chunk_of_index(h, j) == x;
                assert(t1.contains(x));
            }
            if x == c {
                assert(chunk_of_index(h, k) == x);
            }
        }
        assert(t1 =~= t0.insert(c));
    }

    /// Where an update places its pixels: `m1` and `changed1` are `m0` and
    /// `changed0` after `apply_noita_update` (as its contract states them),
    /// and `j` is one of the pixels the update writes. That pixel's position
    /// then holds the update's pixel (when its material is one the compact
    /// form represents), its chunk is recorded as updated and is no longer in
    /// `changed1`; and a position no pixel of the update lands on keeps its
    /// value and its change mark.
    pub proof fn lemma_update_places_pixels(
        m0: WorldModel,
        m1: WorldModel,
        changed0: Set<ChunkCoord>,
        changed1: Set<ChunkCoord>,
        u: NoitaWorldUpdate,
        j: int,
        c: ChunkCoord,
        o: int,
    )
        requires
            update_fits(u.header),
            0 <= j < update_count(u),
            0 <= o < CHUNK_AREA,
            forall|c2: ChunkCoord, o2: int|
                0 <= o2 < CHUNK_AREA ==> #[trigger] m1.raw_at(c2)[o2] == m0.raw_after_update(u, update_count(u), c2, o2)
                    && m1.marks_at(c2)[o2] == m0.mark_after_update(u, update_count(u), c2, o2),
            m1.updated() == m0.updated() + update_written(u, update_count(u)),
            changed1 == changed0 - update_written(u, update_count(u)),
        ensures
            ({
                let pc = chunk_of_index(u.header, j);
                let po = offset_of_index(u.header, j);
                &&& 0 <= po < CHUNK_AREA
                &&& update_pixel(u, j).material < MAX_MATERIAL ==> pixel_of_raw(m1.raw_at(pc)[po]) == update_pixel(u, j)
                &&& m1.updated().contains(pc)
                &&& !changed1.contains(pc)
            }),
            writer_index(u.header, update_count(u), c, o) is None ==> m1.raw_at(c)[o] == m0.raw_at(c)[o]
                && m1.marks_at(c)[o] == m0.marks_at(c)[o],
            writer_index(u.header, update_count(u), c, o) is Some ==> exists|k: int|
                0 <= k < update_count(u) && chunk_of_index(u.header, k) == c && #[trigger] offset_of_index(u.header, k) == o,
    {
        let n = update_count(u);
        let h = u.header;
        let pc = chunk_of_index(h, j);
        let po = offset_of_index(h, j);
        assert(n <= update_capacity(h));
        lemma_writer_index_of(h, n, j);
        let p = update_pixel(u, j);
        assert(m1.raw_at(pc)[po] == updated_raw(m0.raw_at(pc)[po], p));
        lemma_compact_round_trip(p);
        reveal(update_written);
        assert(update_written(u, n).contains(pc));
        assert(m1.raw_at(c)[o] == m0.raw_after_update(u, n, c, o));
        if writer_index(h, n, c, o) is Some {
            lemma_writer_index_unique(h, n, c, o);
            let k = writer_index(h, n, c, o)->Some_0;
            assert(offset_of_index(h, k) == o);
        }
    }

    /// The chunks an update writes to are among those it touches.
    pub proof fn lemma_written_touched(u: NoitaWorldUpdate, k: int)
        ensures
            update_written(u, k).subset_of(update_touched(u, k)),
    {
        reveal(update_written);
        assert forall|x: ChunkCoord| update_written(u, k).contains(x) implies update_touched(u, k).contains(x) by {
            let j = choose|j: int| 0 <= j < k && #[trigger] chunk_of_index(u.header, j) == x;
            assert(chunk_of_index(u.header, j) == x);
        }
    }

    /// The bookkeeping of `apply_noita_update` after its first `k` pixels: the
    /// chunk under the cursor is held outside the map, every other chunk and
    /// the cursor's chunk hold what the first `k` pixels make of `m0`, and the
    /// chunks already recorded as written are those of `flushed`.
    spec fn update_state(
        self,
        cur: UpdateCursor,
        changed: ChunkCoordSet,
        m0: WorldModel,
        changed0: Set<ChunkCoord>,
        u: NoitaWorldUpdate,
        k: int,
        flushed: Set<ChunkCoord>,
    ) -> bool {
        &&& m0.wf()
        &&& update_fits(u.header)
        &&& 0 <= k <= update_capacity(u.header)
        &&& !self.chunk_map().contains_key(cur.coord)
        &&& self.chunk_map().dom().insert(cur.coord) == (m0.chunk_map().dom() + update_touched(u, k)).insert(cur.coord)
        &&& forall|c: ChunkCoord, o: int|
            0 <= o < CHUNK_AREA && c != cur.coord ==> #[trigger] self.raw_at(c)[o]
                == m0.raw_after_update(u, k, c, o) && self.marks_at(c)[o]
                == m0.mark_after_update(u, k, c, o)
        &&& forall|o: int|
            0 <= o < CHUNK_AREA ==> #[trigger] cur.chunk.raw_pixels()[o] == m0.raw_after_update(u, k, cur.coord, o)
                && cur.chunk.changed_marks()[o] == m0.mark_after_update(u, k, cur.coord, o)
        &&& self.updated_chunks.wf()
        &&& changed.wf()
        &&& self.full_write_chunks == m0.full_write_chunks
        &&& self.updated_chunks@ == m0.updated() + flushed
        &&& changed@ == changed0 - flushed
        &&& flushed.subset_of(update_written(u, k))
        &&& forall|c: ChunkCoord| #[trigger]
            update_written(u, k).contains(c) && c != cur.coord ==> flushed.contains(c)
        &&& update_written(u, k).contains(cur.coord) ==> cur.dirty || flushed.contains(cur.coord)
        &&& cur.dirty ==> update_written(u, k).contains(cur.coord)
    }

    /// Moves the cursor to chunk `to`, recording the chunk it leaves as written
    /// if a pixel was written to it.
    fn move_update_cursor(
        &mut self,
        cur: &mut UpdateCursor,
        changed: &mut ChunkCoordSet,
        to: ChunkCoord,
        Ghost(m0): Ghost<WorldModel>,
        Ghost(changed0): Ghost<Set<ChunkCoord>>,
        Ghost(u): Ghost<NoitaWorldUpdate>,
        Ghost(k): Ghost<int>,
        Ghost(flushed): Ghost<Set<ChunkCoord>>,
    ) -> (r: Ghost<Set<ChunkCoord>>)
        requires
            old(self).update_state(*old(cur), *old(changed), m0, changed0, u, k, flushed),
            update_touched(u, k).contains(old(cur).coord),
            old(cur).coord != to,
        ensures
            final(self).update_state(*final(cur), *final(changed), m0, changed0, u, k, r@),
            final(cur).coord == to,
            !final(cur).dirty,
            final(self).chunk_map().dom().insert(to) == old(self).chunk_map().dom().insert(old(cur).coord).insert(to),
    {
        let ghost before = *self;
        let ghost mut fl = flushed;
        if cur.dirty {
            self.updated_chunks.insert(cur.coord);
            changed.remove(&cur.coord);
            proof {
                fl = fl.insert(cur.coord);
            }
            cur.dirty = false;
        }
        assert(self.chunk_map() == before.chunk_map());
        let from = cur.coord;
        let ghost from_chunk = cur.chunk;
        let mut next = self.take_chunk(to);
        std::mem::swap(&mut next, &mut cur.chunk);
        self.put_chunk(from, next);
        cur.coord = to;
        proof {
            assert(self.chunk_map().dom().insert(to) =~= before.chunk_map().dom().insert(from).insert(to));
            assert(self.updated_chunks@ =~= m0.updated() + fl);
            assert(changed@ =~= changed0 - fl);
            assert forall|c: ChunkCoord, o: int|
                0 <= o < CHUNK_AREA && c != to implies #[trigger] self.raw_at(c)[o]
                    == m0.raw_after_update(u, k, c, o) && self.marks_at(c)[o]
                    == m0.mark_after_update(u, k, c, o) by {
                if c == from {
                    assert(self.chunk_map()[c] == from_chunk);
                    assert(from_chunk == old(cur).chunk);
                    assert(old(cur).chunk.raw_pixels()[o] == m0.raw_after_update(u, k, c, o));
                    assert(old(cur).chunk.changed_marks()[o] == m0.mark_after_update(u, k, c, o));
                } else {
                    assert(self.chunk_map().contains_key(c) == before.chunk_map().contains_key(c));
                    if self.chunk_map().contains_key(c) {
                        assert(self.chunk_map()[c] == before.chunk_map()[c]);
                    }
                    assert(self.raw_at(c) == before.raw_at(c));
                    assert(self.marks_at(c) == before.marks_at(c));
                    assert(old(self).raw_at(c)[o] == m0.raw_after_update(u, k, c, o));
                    assert(old(self).marks_at(c)[o] == m0.mark_after_update(u, k, c, o));
                }
            }
            assert forall|o: int| 0 <= o < CHUNK_AREA implies #[trigger] cur.chunk.raw_pixels()[o]
                == m0.raw_after_update(u, k, to, o) && cur.chunk.changed_marks()[o]
                == m0.mark_after_update(u, k, to, o) by {
                assert(old(self).raw_at(to)[o] == m0.raw_after_update(u, k, to, o));
                assert(old(self).marks_at(to)[o] == m0.mark_after_update(u, k, to, o));
            }
            assert((m0.chunk_map().dom() + update_touched(u, k)).insert(from) =~= m0.chunk_map().dom()
                + update_touched(u, k));
            assert forall|c: ChunkCoord| #[trigger]
                update_written(u, k).contains(c) && c != to implies fl.contains(c) by {
                if c == from {
                    assert(old(cur).dirty || flushed.contains(c));
                } else {
                    assert(flushed.contains(c));
                }
            }
            assert(fl.subset_of(update_written(u, k)));
        }
        Ghost(fl)
    }

    proof fn lemma_write_step(
        self,
        cur0: UpdateCursor,
        cur1: UpdateCursor,
        changed: ChunkCoordSet,
        m0: WorldModel,
        changed0: Set<ChunkCoord>,
        u: NoitaWorldUpdate,
        k: int,
        fl: Set<ChunkCoord>,
    )
        requires
            self.update_state(cur0, changed, m0, changed0, u, k, fl),
            k + 1 <= update_capacity(u.header),
            cur0.coord == chunk_of_index(u.header, k),
            cur1.coord == cur0.coord,
            ({
                let ok = offset_of_index(u.header, k);
                let p = update_pixel(u, k);
                let old_raw = cur0.chunk.raw_pixels()[ok];
                &&& cur1.chunk.raw_pixels() == cur0.chunk.raw_pixels().update(ok, updated_raw(old_raw, p))
                &&& cur1.chunk.changed_marks() == cur0.chunk.changed_marks().update(
                    ok,
                    updated_mark(old_raw, cur0.chunk.changed_marks()[ok], p),
                )
                &&& cur1.dirty
            }),
        ensures
            self.update_state(cur1, changed, m0, changed0, u, k + 1, fl),
            update_touched(u, k + 1).contains(cur1.coord),
    {
        let h = u.header;
        let cc = cur0.coord;
        let ok = offset_of_index(h, k);
        lemma_writer_index_of(h, k + 1, k);
        m0.lemma_update_step_here(u, k);
        assert(cur0.chunk.raw_pixels()[ok] == m0.raw_after_update(u, k, cc, ok));
        assert(cur0.chunk.changed_marks()[ok] == m0.mark_after_update(u, k, cc, ok));
        assert forall|o: int| 0 <= o < CHUNK_AREA implies #[trigger] cur1.chunk.raw_pixels()[o]
            == m0.raw_after_update(u, k + 1, cc, o) && cur1.chunk.changed_marks()[o]
            == m0.mark_after_update(u, k + 1, cc, o) by {
            if o != ok {
                m0.lemma_update_step_other(u, k, cc, o);
                assert(cur0.chunk.raw_pixels()[o] == m0.raw_after_update(u, k, cc, o));
                assert(cur0.chunk.changed_marks()[o] == m0.mark_after_update(u, k, cc, o));
            }
        }
        assert forall|c: ChunkCoord, o: int|
            0 <= o < CHUNK_AREA && c != cc implies #[trigger] self.raw_at(c)[o]
                == m0.raw_after_update(u, k + 1, c, o) && self.marks_at(c)[o]
                == m0.mark_after_update(u, k + 1, c, o) by {
            m0.lemma_update_step_other(u, k, c, o);
            assert(self.raw_at(c)[o] == m0.raw_after_update(u, k, c, o));
            assert(self.marks_at(c)[o] == m0.mark_after_update(u, k, c, o));
        }
        assert forall|c: ChunkCoord| #[trigger]
            update_written(u, k + 1).contains(c) && c != cc implies fl.contains(c) by {
            assert(update_written(u, k).contains(c));
        }
        assert((m0.chunk_map().dom() + update_touched(u, k + 1)).insert(cc)
            =~= (m0.chunk_map().dom() + update_touched(u, k)).insert(cc));
    }

    /// Writes the `k`-th pixel of the update, at world position `(xs, ys)`.
    fn write_update_pixel(
        &mut self,
        cur: &mut UpdateCursor,
        changed: &mut ChunkCoordSet,
        pixel: Pixel,
        xs: i32,
        ys: i32,
        Ghost(m0): Ghost<WorldModel>,
        Ghost(changed0): Ghost<Set<ChunkCoord>>,
        Ghost(u): Ghost<NoitaWorldUpdate>,
        Ghost(k): Ghost<int>,
        Ghost(flushed): Ghost<Set<ChunkCoord>>,
    ) -> (r: Ghost<Set<ChunkCoord>>)
        requires
            old(self).update_state(*old(cur), *old(changed), m0, changed0, u, k, flushed),
            update_touched(u, k).contains(old(cur).coord),
            k + 1 <= update_capacity(u.header),
            xs as int == pos_x(u.header, k),
            ys as int == pos_y(u.header, k),
            pixel == update_pixel(u, k),
        ensures
            final(self).update_state(*final(cur), *final(changed), m0, changed0, u, k + 1, r@),
            update_touched(u, k + 1).contains(final(cur).coord),
    {
        let ghost h = u.header;
        let (new_coord, offset) = get_chunk_coords(xs, ys);
        proof {
            lemma_writer_index_of(h, k + 1, k);
            m0.lemma_update_step_here(u, k);
            assert(new_coord == chunk_of_index(h, k));
            assert(offset as int == offset_of_index(h, k));
        }
        let mut fl = Ghost(flushed);
        if cur.coord != new_coord {
            fl = self.move_update_cursor(cur, changed, new_coord, Ghost(m0), Ghost(changed0), Ghost(u), Ghost(k), Ghost(flushed));
        }
        let ghost pre = *cur;
        set_pixel_if_different(pixel, &mut cur.chunk, offset);
        cur.dirty = true;
        proof {
            self.lemma_write_step(pre, *cur, *changed, m0, changed0, u, k, fl@);
        }
        fl
    }

    /// Puts the cursor's chunk back and records it as written if a pixel was
    /// written to it.
    fn finish_update(
        &mut self,
        cur: UpdateCursor,
        changed: &mut ChunkCoordSet,
        Ghost(m0): Ghost<WorldModel>,
        Ghost(changed0): Ghost<Set<ChunkCoord>>,
        Ghost(u): Ghost<NoitaWorldUpdate>,
        Ghost(n): Ghost<int>,
        Ghost(flushed): Ghost<Set<ChunkCoord>>,
    )
        requires
            old(self).update_state(cur, *old(changed), m0, changed0, u, n, flushed),
            update_touched(u, n).contains(cur.coord),
        ensures
            final(self).wf(),
            final(changed).wf(),
            final(self).chunk_map().dom() == m0.chunk_map().dom() + update_touched(u, n),
            forall|c: ChunkCoord, o: int|
                0 <= o < CHUNK_AREA ==> #[trigger] final(self).raw_at(c)[o] == m0.raw_after_update(u, n, c, o)
                    && final(self).marks_at(c)[o] == m0.mark_after_update(u, n, c, o),
            final(self).updated() == m0.updated() + update_written(u, n),
            final(self).full_writes() == m0.full_writes(),
            final(changed)@ == changed0 - update_written(u, n),
    {
        let ghost before = *self;
        let ghost mut fl = flushed;
        if cur.dirty {
            self.updated_chunks.insert(cur.coord);
            changed.remove(&cur.coord);
            proof {
                fl = fl.insert(cur.coord);
            }
        }
        assert(self.chunk_map() == before.chunk_map());
        let cc = cur.coord;
        self.put_chunk(cc, cur.chunk);
        proof {
            let d = update_written(u, n);
            assert(fl =~= d);
            assert(self.chunk_map().dom() =~= before.chunk_map().dom().insert(cc));
            assert(self.chunk_map().dom() =~= m0.chunk_map().dom() + update_touched(u, n));
            assert forall|c: ChunkCoord, o: int|
                0 <= o < CHUNK_AREA implies #[trigger] self.raw_at(c)[o] == m0.raw_after_update(u, n, c, o)
                    && self.marks_at(c)[o] == m0.mark_after_update(u, n, c, o) by {
                if c != cc {
                    assert(self.chunk_map().contains_key(c) == before.chunk_map().contains_key(c));
                    if self.chunk_map().contains_key(c) {
                        assert(self.chunk_map()[c] == before.chunk_map()[c]);
                    }
                    assert(self.raw_at(c) == before.raw_at(c));
                    assert(self.marks_at(c) == before.marks_at(c));
                    assert(old(self).raw_at(c)[o] == m0.raw_after_update(u, n, c, o));
                    assert(old(self).marks_at(c)[o] == m0.mark_after_update(u, n, c, o));
                } else {
                    assert(self.chunk_map()[c] == cur.chunk);
                    assert(cur.chunk.raw_pixels()[o] == m0.raw_after_update(u, n, c, o));
                    assert(cur.chunk.changed_marks()[o] == m0.mark_after_update(u, n, c, o));
                }
            }
            Self::lemma_written_touched(u, n);
            assert forall|c: ChunkCoord| #[trigger]
                self.updated_chunks@.contains(c) implies self.chunks@.contains_key(coord_key(c)) by {
                if m0.updated().contains(c) {
                    assert(m0.chunk_map().contains_key(c));
                } else {
                    assert(d.contains(c));
                    assert(update_touched(u, n).contains(c));
                }
                assert(self.chunk_map().contains_key(c));
            }
            assert(self.updated_chunks@ =~= m0.updated() + d);
            assert(changed@ =~= changed0 - d);
        }
    }

    /// Writes the pixels of an update from the game into the model, row by
    /// row over its rectangle. Pixels beyond the rectangle are dropped. A pixel
    /// is stored only where the model holds one that decodes differently; every
    /// chunk a pixel is written to counts as written, changed or not, and is
    /// removed from `changed`. Every chunk the update touches exists afterwards.
    pub fn apply_noita_update(&mut self, update: &NoitaWorldUpdate, changed: &mut ChunkCoordSet)
        requires
            old(self).wf(),
            old(changed).wf(),
            update_fits(update.header),
        ensures
            final(self).wf(),
            final(changed).wf(),
            final(self).chunk_map().dom() == old(self).chunk_map().dom() + update_touched(
                *update,
                update_count(*update),
            ),
            forall|c: ChunkCoord, o: int|
                0 <= o < CHUNK_AREA ==> #[trigger] final(self).raw_at(c)[o] == old(self).raw_after_update(
                    *update,
                    update_count(*update),
                    c,
                    o,
                ) && final(self).marks_at(c)[o] == old(self).mark_after_update(
                    *update,
                    update_count(*update),
                    c,
                    o,
                ),
            final(self).updated() == old(self).updated() + update_written(*update, update_count(*update)),
            final(self).full_writes() == old(self).full_writes(),
            final(changed)@ == old(changed)@ - update_written(*update, update_count(*update)),
    {
        let header = update.header;
        let runs = &update.runs;
        let ghost m0 = *old(self);
        let ghost changed0 = old(changed)@;
        let ghost u = *update;
        let ghost rl = row_len(header);
        proof {
            let w1 = header.w as int + 1;
            let h1 = header.h as int + 1;
            assert(w1 * h1 <= 256 * 256) by (nonlinear_arith)
                requires
                    1 <= w1 <= 256,
                    1 <= h1 <= 256,
            ;
        }
        let capacity: i64 = (header.w as i64 + 1) * (header.h as i64 + 1);
        let mut written: i64 = 0;
        let mut x: i32 = 0;
        let mut y: i32 = 0;
        let (first_coord, _first_offset) = get_chunk_coords(header.x, header.y);
        let first_chunk = self.take_chunk(first_coord);
        let mut cur = UpdateCursor { coord: first_coord, chunk: first_chunk, dirty: false };
        let ghost mut flushed: Set<ChunkCoord> = Set::empty();
        proof {
            assert(update_touched(u, 0) =~= set![first_coord]);
            assert(update_written(u, 0) =~= Set::<ChunkCoord>::empty()) by {
                reveal(update_written);
            }
            assert(self.chunk_map().dom().insert(first_coord) =~= (m0.chunk_map().dom() + update_touched(u, 0)).insert(first_coord));
            assert(self.updated_chunks@ =~= m0.updated() + flushed);
            assert(changed@ =~= changed0 - flushed);
            assert forall|c: ChunkCoord, o: int|
                0 <= o < CHUNK_AREA && c != first_coord implies #[trigger] self.raw_at(c)[o]
                    == m0.raw_after_update(u, 0, c, o) && self.marks_at(c)[o]
                    == m0.mark_after_update(u, 0, c, o) by {
                assert(writer_index(header, 0, c, o) is None);
            }
            assert forall|o: int| 0 <= o < CHUNK_AREA implies #[trigger] cur.chunk.raw_pixels()[o]
                == m0.raw_after_update(u, 0, first_coord, o) && cur.chunk.changed_marks()[o]
                == m0.mark_after_update(u, 0, first_coord, o) by {
                assert(writer_index(header, 0, first_coord, o) is None);
            }
        }
        let mut i: usize = 0;
        while i < runs.len() && written < capacity
            invariant
                update.header == header,
                u == *update,
                runs == &update.runs,
                rl == row_len(header),
                capacity == update_capacity(header),
                0 <= written <= capacity,
                i <= runs@.len(),
                written <= runs_total(runs@.take(i as int)),
                written < capacity ==> written == runs_total(runs@.take(i as int)),
                written as int == y as int * rl + x as int,
                0 <= x < rl,
                0 <= y,
                written < capacity ==> y <= header.h,
                update_touched(u, written as int).contains(cur.coord),
                self.update_state(cur, *changed, m0, changed0, u, written as int, flushed),
            decreases runs@.len() - i,
        {
            let run = runs[i];
            let flags = if run.data.flags > 0 {
                PixelFlags::Fluid
            } else {
                PixelFlags::Normal
            };
            let pixel = Pixel { material: run.data.material, flags };
            let ghost start = written as int;
            proof {
                assert(runs@.take(i + 1) =~= runs@.take(i as int).push(run));
                lemma_decode_push(runs@.take(i as int), run);
                lemma_decode_len(runs@.take(i as int));
                lemma_decode_len(runs@.take(i + 1));
                lemma_decode_prefix(runs@, i + 1);
                assert forall|k: int| start <= k < start + run.length implies #[trigger] update_pixel(u, k) == pixel by {
                    assert(decode_runs(runs@)[k] == decode_runs(runs@.take(i + 1))[k]);
                    assert(decode_runs(runs@.take(i + 1))[k] == Seq::new(run.length as nat, |_i: int| run.data)[k - start]);
                }
            }
            let mut r: u32 = 0;
            while r < run.length && written < capacity
                invariant
                    update.header == header,
                    u == *update,
                    rl == row_len(header),
                    capacity == update_capacity(header),
                    0 <= written <= capacity,
                    r <= run.length,
                    written == start + r,
                    forall|k: int| start <= k < start + run.length ==> #[trigger] update_pixel(u, k) == pixel,
                    written as int == y as int * rl + x as int,
                    0 <= x < rl,
                    0 <= y,
                    written < capacity ==> y <= header.h,
                    update_touched(u, written as int).contains(cur.coord),
                    self.update_state(cur, *changed, m0, changed0, u, written as int, flushed),
                decreases run.length - r,
            {
                let ghost k = written as int;
                proof {
                    lemma_fundamental_div_mod_converse(k, rl, y as int, x as int);
                    lemma_index_row_bound(header, k);
                }
                let xs = header.x + x;
                let ys = header.y + y;
                let f = self.write_update_pixel(
                    &mut cur,
                    changed,
                    pixel,
                    xs,
                    ys,
                    Ghost(m0),
                    Ghost(changed0),
                    Ghost(u),
                    Ghost(k),
                    Ghost(flushed),
                );
                proof {
                    flushed = f@;
                }
                written = written + 1;
                x = x + 1;
                if x == header.w as i32 + 1 {
                    x = 0;
                    y = y + 1;
                    proof {
                        assert(y as int * rl == (y as int - 1) * rl + rl) by (nonlinear_arith);
                    }
                }
                proof {
                    if written < capacity {
                        lemma_index_row_bound(header, k + 1);
                        lemma_fundamental_div_mod_converse(k + 1, rl, y as int, x as int);
                    }
                }
                r = r + 1;
            }
            i = i + 1;
        }
        proof {
            let t = runs_total(runs@) as int;
            lemma_decode_prefix(runs@, i as int);
            lemma_decode_len(runs@.take(i as int));
            lemma_decode_len(runs@);
            if i == runs.len() {
                assert(runs@.take(i as int) =~= runs@);
            }
            assert(written == update_count(u));
        }
        self.finish_update(cur, changed, Ghost(m0), Ghost(changed0), Ghost(u), Ghost(written as int), Ghost(flushed));
    }

    /// Forgets all chunks and all change tracking.
    pub fn reset(&mut self)
        ensures
            final(self).wf(),
            final(self).chunk_map() == Map::<ChunkCoord, Chunk>::empty(),
            final(self).updated() == Set::<ChunkCoord>::empty(),
            final(self).full_writes() == Set::<ChunkCoord>::empty(),
    {
        self.chunks.clear();
        self.updated_chunks.clear();
        self.full_write_chunks.clear();
        assert(self.chunk_map() =~= Map::<ChunkCoord, Chunk>::empty());
    }
}

impl Default for WorldModel {
    fn default() -> (r: WorldModel)
        ensures
            r.wf(),
            r.chunk_map() == Map::<ChunkCoord, Chunk>::empty(),
            r.updated() == Set::<ChunkCoord>::empty(),
            r.full_writes() == Set::<ChunkCoord>::empty(),
    {
        let r = WorldModel {
            chunks: HashMap::new(),
            updated_chunks: ChunkCoordSet::new(),
            full_write_chunks: ChunkCoordSet::new(),
        };
        assert(r.chunk_map() =~= Map::<ChunkCoord, Chunk>::empty());
        r
    }
}

} // verus!
