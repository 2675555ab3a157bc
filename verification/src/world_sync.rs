//! What the world sync of the game and the proxy exchange: runs of packed
//! pixels, grouped by chunk.
use vstd::prelude::*;
use crate::encoding::RunValue;

verus! {

/// Stores a run of pixels. The length is the actual number of pixels.
#[derive(Debug, Clone, Copy, PartialEq, Eq)]
pub struct PixelRun<P> {
    pub length: u16,
    pub data: P,
}

/// The pixel sequence that a list of runs stands for.
pub open spec fn expand<P>(runs: Seq<PixelRun<P>>) -> Seq<P>
    decreases runs.len(),
{
    if runs.len() == 0 {
        Seq::empty()
    } else {
        expand(runs.drop_last()) + Seq::new(runs.last().length as nat, |_i: int| runs.last().data)
    }
}

/// Total number of pixels that a list of runs stands for.
pub open spec fn total<P>(runs: Seq<PixelRun<P>>) -> nat
    decreases runs.len(),
{
    if runs.len() == 0 {
        0
    } else {
        total(runs.drop_last()) + runs.last().length as nat
    }
}

/// No run is empty and neighbouring runs hold different pixels.
pub open spec fn canonical<P>(runs: Seq<PixelRun<P>>) -> bool {
    &&& forall|i: int| 0 <= i < runs.len() ==> #[trigger] runs[i].length > 0
    &&& forall|i: int| 0 <= i < runs.len() - 1 ==> #[trigger] runs[i].data != runs[i + 1].data
}

/// `n` pixels starting at `i` are all equal to the one at `i`.
pub open spec fn equal_stretch<P>(s: Seq<P>, i: int, n: int) -> bool {
    forall|k: int| i <= k < i + n ==> #[trigger] s[k] == s[i]
}

/// No stretch of equal pixels is longer than a run can count.
pub open spec fn stretches_fit<P>(s: Seq<P>) -> bool {
    forall|i: int| 0 <= i && i + 0x10000 <= s.len() ==> !#[trigger] equal_stretch(s, i, 0x10000)
}

/// Appending one run appends its pixels.
pub proof fn lemma_expand_push<P>(runs: Seq<PixelRun<P>>, r: PixelRun<P>)
    ensures
        expand(runs.push(r)) == expand(runs) + Seq::new(r.length as nat, |_i: int| r.data),
        total(runs.push(r)) == total(runs) + r.length,
{
    assert(runs.push(r).drop_last() =~= runs);
}

/// The expanded length is the total of the run lengths.
pub proof fn lemma_expand_len<P>(runs: Seq<PixelRun<P>>)
    ensures
        expand(runs).len() == total(runs),
    decreases runs.len(),
{
    if runs.len() > 0 {
        lemma_expand_len(runs.drop_last());
    }
}

/// The last pixel of a non-empty expansion is the data of the last run.
proof fn lemma_expand_last<P>(runs: Seq<PixelRun<P>>)
    requires
        runs.len() > 0,
        canonical(runs),
    ensures
        expand(runs).len() > 0,
        expand(runs).len() == expand(runs.drop_last()).len() + runs.last().length,
        expand(runs).last() == runs.last().data,
        forall|k: int|
            expand(runs.drop_last()).len() <= k < expand(runs).len() ==> #[trigger] expand(runs)[k]
                == runs.last().data,
        forall|k: int| 0 <= k < expand(runs.drop_last()).len() ==> #[trigger] expand(runs)[k]
            == expand(runs.drop_last())[k],
{
    lemma_expand_len(runs);
    lemma_expand_len(runs.drop_last());
    assert(runs.last().length > 0);
}

/// A canonical list of runs has no more runs than pixels.
proof fn lemma_canonical_count<P>(runs: Seq<PixelRun<P>>)
    requires
        canonical(runs),
    ensures
        runs.len() <= total(runs),
    decreases runs.len(),
{
    if runs.len() > 0 {
        assert(runs.last().length > 0);
        assert(canonical(runs.drop_last()));
        lemma_canonical_count(runs.drop_last());
    }
}

/// Two canonical lists of runs that stand for the same pixels are the same list:
/// the canonical encoding of a pixel sequence is unique.
pub proof fn lemma_canonical_unique<P>(a: Seq<PixelRun<P>>, b: Seq<PixelRun<P>>)
    requires
        canonical(a),
        canonical(b),
        expand(a) == expand(b),
    ensures
        a == b,
    decreases a.len(),
{
    lemma_expand_len(a);
    lemma_expand_len(b);
    lemma_canonical_count(a);
    lemma_canonical_count(b);
    if a.len() == 0 || b.len() == 0 {
        assert(a =~= b);
    } else {
        lemma_expand_last(a);
        lemma_expand_last(b);
        let la = a.last();
        let lb = b.last();
        let n = expand(a).len();
        let pa = expand(a.drop_last()).len();
        let pb = expand(b.drop_last()).len();
        assert(la.data == lb.data);
        if la.length < lb.length {
            assert(a.len() >= 2) by {
                if a.len() == 1 {
                    assert(a.drop_last() =~= Seq::<PixelRun<P>>::empty());
                }
            }
            assert(canonical(a.drop_last()));
            lemma_expand_last(a.drop_last());
            assert(a.drop_last().last() == a[a.len() - 2]);
            assert(a[a.len() - 2].data != a[a.len() - 1].data);
            assert(expand(a)[pa - 1] == a.drop_last().last().data);
            assert(expand(b)[pa - 1] == lb.data);
            assert(false);
        }
        if lb.length < la.length {
            assert(b.len() >= 2) by {
                if b.len() == 1 {
                    assert(b.drop_last() =~= Seq::<PixelRun<P>>::empty());
                }
            }
            assert(canonical(b.drop_last()));
            lemma_expand_last(b.drop_last());
            assert(b.drop_last().last() == b[b.len() - 2]);
            assert(b[b.len() - 2].data != b[b.len() - 1].data);
            assert(expand(b)[pb - 1] == b.drop_last().last().data);
            assert(expand(a)[pb - 1] == la.data);
            assert(false);
        }
        assert(la == lb);
        assert(expand(a.drop_last()) =~= expand(b.drop_last())) by {
            assert(pa == pb);
            assert forall|k: int| 0 <= k < pa implies expand(a.drop_last())[k] == expand(
                b.drop_last(),
            )[k] by {
                assert(expand(a)[k] == expand(a.drop_last())[k]);
                assert(expand(b)[k] == expand(b.drop_last())[k]);
            }
        }
        assert(canonical(a.drop_last()));
        assert(canonical(b.drop_last()));
        lemma_canonical_unique(a.drop_last(), b.drop_last());
        assert(a =~= a.drop_last().push(la));
        assert(b =~= b.drop_last().push(lb));
    }
}

/// Converts a normal sequence of pixels to a run-length-encoded one.
pub struct PixelRunner<P> {
    current_pixel: Option<P>,
    current_run_len: u16,
    runs: Vec<PixelRun<P>>,
}

impl<P: RunValue> PixelRunner<P> {
    /// The pixels put into the runner so far.
    pub closed spec fn pushed(&self) -> Seq<P> {
        match self.current_pixel {
            None => expand(self.runs@),
            Some(c) => expand(self.runs@) + Seq::new(self.current_run_len as nat, |_i: int| c),
        }
    }

    /// Internal consistency of the runner.
    pub closed spec fn wf(&self) -> bool {
        &&& canonical(self.runs@)
        &&& match self.current_pixel {
            None => self.current_run_len == 0 && self.runs@.len() == 0,
            Some(c) => self.current_run_len > 0 && (self.runs@.len() > 0 ==> self.runs@.last().data
                != c),
        }
    }

    /// Whether one more pixel can be counted without the run length overflowing.
    pub closed spec fn can_put(&self, pixel: P) -> bool {
        self.current_pixel matches Some(c) && c == pixel ==> self.current_run_len < u16::MAX
    }

    /// The last `current_run_len` pushed pixels are the current one.
    proof fn lemma_tail(&self, k: int)
        requires
            self.wf(),
            self.current_pixel is Some,
            self.pushed().len() - self.current_run_len <= k < self.pushed().len(),
        ensures
            self.pushed()[k] == self.current_pixel->0,
            self.pushed().len() == expand(self.runs@).len() + self.current_run_len,
    {
        lemma_expand_len(self.runs@);
    }

    /// Run-length encodes `data`.
    pub fn compress(data: &[P]) -> (r: Vec<PixelRun<P>>)
        requires
            stretches_fit(data@),
        ensures
            expand(r@) == data@,
            canonical(r@),
    {
        let mut me = Self::new();
        let mut i: usize = 0;
        while i < data.len()
            invariant
                i <= data@.len(),
                me.wf(),
                me.pushed() == data@.take(i as int),
                stretches_fit(data@),
            decreases data@.len() - i,
        {
            let pixel = data[i];
            proof {
                if me.current_pixel matches Some(c) && c == pixel && me.current_run_len == u16::MAX {
                    let start = i - 0xFFFF;
                    assert forall|k: int| start <= k < start + 0x10000 implies #[trigger] data@[k]
                        == data@[start] by {
                        if k < i {
                            me.lemma_tail(k);
                            me.lemma_tail(start);
                            assert(data@.take(i as int)[k] == data@[k]);
                            assert(data@.take(i as int)[start] == data@[start]);
                        } else {
                            me.lemma_tail(start);
                            assert(data@.take(i as int)[start] == data@[start]);
                        }
                    }
                    assert(equal_stretch(data@, start, 0x10000));
                }
            }
            me.put_pixel(pixel);
            assert(data@.take(i + 1) =~= data@.take(i as int).push(pixel));
            i = i + 1;
        }
        assert(data@.take(i as int) =~= data@);
        me.build()
    }

    pub fn new() -> (r: Self)
        ensures
            r.wf(),
            r.pushed() == Seq::<P>::empty(),
    {
        PixelRunner { current_pixel: None, current_run_len: 0, runs: Vec::new() }
    }

    /// Counts one more pixel.
    pub fn put_pixel(&mut self, pixel: P)
        requires
            old(self).wf(),
            old(self).can_put(pixel),
        ensures
            final(self).wf(),
            final(self).pushed() == old(self).pushed().push(pixel),
    {
        let ghost old_runs = self.runs@;
        match self.current_pixel {
            Some(current) => {
                if !pixel.same_as(&current) {
                    let run = PixelRun { length: self.current_run_len, data: current };
                    self.runs.push(run);
                    proof {
                        lemma_expand_push(old_runs, run);
                    }
                    self.current_pixel = Some(pixel);
                    self.current_run_len = 1;
                    assert(self.pushed() =~= old(self).pushed().push(pixel));
                } else {
                    self.current_run_len = self.current_run_len + 1;
                    assert(self.pushed() =~= old(self).pushed().push(pixel));
                }
            },
            None => {
                self.current_pixel = Some(pixel);
                self.current_run_len = 1;
                assert(self.pushed() =~= old(self).pushed().push(pixel));
            },
        }
    }

    /// The runs of everything put so far, in canonical form.
    pub fn build(self) -> (r: Vec<PixelRun<P>>)
        requires
            self.wf(),
        ensures
            expand(r@) == self.pushed(),
            canonical(r@),
    {
        let mut runs = self.runs;
        if self.current_run_len > 0 {
            match self.current_pixel {
                Some(c) => {
                    let run = PixelRun { length: self.current_run_len, data: c };
                    proof {
                        lemma_expand_push(runs@, run);
                    }
                    runs.push(run);
                },
                None => {},
            }
        }
        runs
    }
}

impl<P: RunValue> Default for PixelRunner<P> {
    fn default() -> (r: Self)
        ensures
            r.wf(),
            r.pushed() == Seq::<P>::empty(),
    {
        Self::new()
    }
}

/// Side of a chunk, in pixels.
pub const CHUNK_SIZE: usize = 128;

/// Binary logarithm of `CHUNK_SIZE`.
pub const CHUNKLET_SIZE_POWER: isize = 7;

/// Coordinates of a chunk.
#[derive(Debug, Clone, Copy, Hash, PartialEq, Eq, Structural, PartialOrd, Ord)]
pub struct ChunkCoord(pub i32, pub i32);

/// Pixels of one chunk, run-length encoded.
pub struct NoitaWorldUpdate {
    pub coord: ChunkCoord,
    pub pixel_runs: Vec<PixelRun<Pixel>>,
}

impl NoitaWorldUpdate {
    /// Every pixel of the update, in order.
    pub fn iter_pixels(&self) -> (r: Vec<Pixel>)
        requires
            total(self.pixel_runs@) <= usize::MAX,
        ensures
            r@ == expand(self.pixel_runs@),
    {
        let mut out: Vec<Pixel> = Vec::new();
        let mut i: usize = 0;
        while i < self.pixel_runs.len()
            invariant
                i <= self.pixel_runs@.len(),
                out@ == expand(self.pixel_runs@.take(i as int)),
                total(self.pixel_runs@) <= usize::MAX,
            decreases self.pixel_runs@.len() - i,
        {
            let run = self.pixel_runs[i];
            proof {
                assert(self.pixel_runs@.take(i + 1) =~= self.pixel_runs@.take(i as int).push(run));
                lemma_expand_push(self.pixel_runs@.take(i as int), run);
                lemma_total_prefix(self.pixel_runs@, i + 1);
                lemma_expand_len(self.pixel_runs@.take(i + 1));
            }
            let mut n: u16 = 0;
            let ghost before = out@;
            while n < run.length
                invariant
                    n <= run.length,
                    out@ == before + Seq::new(n as nat, |_i: int| run.data),
                    before.len() + run.length <= usize::MAX,
                decreases run.length - n,
            {
                out.push(run.data);
                n = n + 1;
                assert(out@ =~= before + Seq::new(n as nat, |_i: int| run.data));
            }
            i = i + 1;
        }
        assert(self.pixel_runs@.take(i as int) =~= self.pixel_runs@);
        out
    }

    /// Whether every pixel of the update is air.
    pub fn is_all_empty_pixels(&self) -> (r: bool)
        ensures
            r == forall|i: int| 0 <= i < self.pixel_runs@.len() ==> #[trigger] self.pixel_runs@[i].data.mat_spec() == 0,
    {
        let mut i: usize = 0;
        while i < self.pixel_runs.len()
            invariant
                i <= self.pixel_runs@.len(),
                forall|j: int| 0 <= j < i ==> #[trigger] self.pixel_runs@[j].data.mat_spec() == 0,
            decreases self.pixel_runs@.len() - i,
        {
            if !self.pixel_runs[i].data.is_air() {
                return false;
            }
            i = i + 1;
        }
        true
    }
}

/// The total of a prefix of the runs is at most the total of all of them.
pub proof fn lemma_total_prefix<P>(runs: Seq<PixelRun<P>>, i: int)
    requires
        0 <= i <= runs.len(),
    ensures
        total(runs.take(i)) <= total(runs),
    decreases runs.len() - i,
{
    if i < runs.len() {
        lemma_total_prefix(runs, i + 1);
        assert(runs.take(i + 1) =~= runs.take(i).push(runs[i]));
        lemma_expand_push(runs.take(i), runs[i]);
    } else {
        assert(runs.take(i) =~= runs);
    }
}

/// What is known of a pixel's material.
#[derive(Debug, Clone, Copy, PartialEq, Eq, Structural)]
pub enum PixelFlags {
    /// Actual material isn't known yet.
    Normal,
    Abnormal,
    Unknown,
}

/// The four bits a flag takes in a packed pixel.
pub open spec fn flag_bits(f: PixelFlags) -> u16 {
    match f {
        PixelFlags::Normal => 0,
        PixelFlags::Abnormal => 1,
        PixelFlags::Unknown => 15,
    }
}

impl PixelFlags {
    /// The four bits this flag takes in a packed pixel.
    pub fn bits(self) -> (r: u16)
        ensures
            r == flag_bits(self),
    {
        match self {
            PixelFlags::Normal => 0,
            PixelFlags::Abnormal => 1,
            PixelFlags::Unknown => 15,
        }
    }
}

impl Default for PixelFlags {
    fn default() -> (r: PixelFlags)
        ensures
            r == PixelFlags::Unknown,
    {
        PixelFlags::Unknown
    }
}

/// An entire pixel packed into 16 bits: a 12-bit material and a 4-bit flag.
#[derive(Debug, Clone, Copy, PartialEq, Eq, Structural)]
pub struct Pixel(u16);

/// The packed value of a material with a flag.
pub open spec fn packed(mat: u16, flag: PixelFlags) -> u16 {
    (mat | (flag_bits(flag) << 12u16)) as u16
}

impl Pixel {
    #[verifier::type_invariant]
    spec fn flag_valid(self) -> bool {
        let f = self.0 >> 12u16;
        f == 0 || f == 1 || f == 15
    }

    /// The packed value.
    pub closed spec fn raw_spec(self) -> u16 {
        self.0
    }

    /// The material of the pixel.
    pub open spec fn mat_spec(self) -> u16 {
        (self.raw_spec() & 0x0FFFu16) as u16
    }

    /// The flag of the pixel.
    pub open spec fn flags_spec(self) -> PixelFlags {
        let f = self.raw_spec() >> 12u16;
        if f == 0 {
            PixelFlags::Normal
        } else if f == 1 {
            PixelFlags::Abnormal
        } else {
            PixelFlags::Unknown
        }
    }

    /// Packs a material, which must fit in 12 bits, with a flag.
    pub fn new(mat: u16, flag: PixelFlags) -> (r: Self)
        requires
            mat <= 0x0FFF,
        ensures
            r.raw_spec() == packed(mat, flag),
            r.mat_spec() == mat,
            r.flags_spec() == flag,
    {
        let b = flag.bits();
        let v: u16 = mat | (b << 12u16);
        assert(b == 0 || b == 1 || b == 15);
        assert((v >> 12u16 == b) && (v & 0x0FFFu16 == mat)) by (bit_vector)
            requires
                v == mat | (b << 12u16),
                mat <= 0x0FFF,
                b == 0 || b == 1 || b == 15,
        ;
        Pixel(v)
    }

    /// The pixel that stands for "nothing": material 0, abnormal.
    pub fn nil() -> (r: Self)
        ensures
            r.mat_spec() == 0,
            r.flags_spec() == PixelFlags::Abnormal,
    {
        Pixel::new(0, PixelFlags::Abnormal)
    }

    /// The material of the pixel.
    pub fn mat(self) -> (r: u16)
        ensures
            r == self.mat_spec(),
    {
        self.0 & 0x0FFF
    }

    /// The flag of the pixel.
    pub fn flags(self) -> (r: PixelFlags)
        ensures
            r == self.flags_spec(),
    {
        proof {
            use_type_invariant(self);
        }
        let f = self.0 >> 12u16;
        if f == 0 {
            PixelFlags::Normal
        } else if f == 1 {
            PixelFlags::Abnormal
        } else {
            PixelFlags::Unknown
        }
    }

    /// Whether the pixel is air, material 0.
    pub fn is_air(&self) -> (r: bool)
        ensures
            r == (self.mat_spec() == 0),
    {
        self.mat() == 0
    }
}

impl Default for Pixel {
    fn default() -> (r: Pixel)
        ensures
            r.mat_spec() == 0,
            r.flags_spec() == PixelFlags::Normal,
    {
        assert((0u16 >> 12u16) == 0 && (0u16 & 0x0FFFu16) == 0) by (bit_vector);
        Pixel(0)
    }
}

impl RunValue for Pixel {
    fn same_as(&self, other: &Self) -> (r: bool) {
        self.0 == other.0
    }
}

/// Packing then reading back gives the material and the flag.
pub proof fn lemma_pixel_round_trip(mat: u16, flag: PixelFlags)
    requires
        mat <= 0x0FFF,
    ensures
        packed(mat, flag) & 0x0FFFu16 == mat,
        packed(mat, flag) >> 12u16 == flag_bits(flag),
{
    let b = flag_bits(flag);
    let v = packed(mat, flag);
    assert((v >> 12u16 == b) && (v & 0x0FFFu16 == mat)) by (bit_vector)
        requires
            v == mat | (b << 12u16),
            mat <= 0x0FFF,
            b == 0 || b == 1 || b == 15,
    ;
}

/// Messages from the game's world sync to the proxy.
pub enum WorldSyncToProxy {
    Updates(Vec<NoitaWorldUpdate>),
    End(Option<(i32, i32, i32, i32, bool)>, u8, u8, Vec<ChunkCoord>),
}

/// Messages from the proxy to the game's world sync.
pub enum ProxyToWorldSync {
    Updates(Vec<NoitaWorldUpdate>),
}

} // verus!
