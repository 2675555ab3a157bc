//! Run-length encoding of pixel sequences, and the world update that the
//! proxy hands to the game: a rectangle header followed by pixel runs.
use vstd::prelude::*;
use crate::chunk::CompactPixel;

verus! {

/// Values that can be run-length encoded: they can be copied and compared.
pub trait RunValue: Copy + Sized {
    fn same_as(&self, other: &Self) -> (r: bool)
        ensures
            r == (*self == *other),
    ;
}

impl RunValue for CompactPixel {
    fn same_as(&self, other: &Self) -> (r: bool) {
        self.same(other)
    }
}

impl RunValue for Option<CompactPixel> {
    fn same_as(&self, other: &Self) -> (r: bool) {
        match (self, other) {
            (Some(a), Some(b)) => a.same(b),
            (None, None) => true,
            _ => false,
        }
    }
}

/// A pixel the way the game decoders read it: a material (`u16::MAX` for
/// unknown) and a flag byte.
#[derive(Debug, Clone, Copy, PartialEq, Eq, Structural)]
pub struct RawPixel {
    pub material: u16,
    pub flags: u8,
}

impl RunValue for RawPixel {
    fn same_as(&self, other: &Self) -> (r: bool) {
        self.material == other.material && self.flags == other.flags
    }
}

/// A run of equal pixels. The length is the actual number of pixels.
#[derive(Debug, Clone, Copy, PartialEq, Eq)]
pub struct PixelRun<P> {
    pub length: u32,
    pub data: P,
}

/// The pixel sequence that a list of runs stands for.
pub open spec fn decode_runs<P>(runs: Seq<PixelRun<P>>) -> Seq<P>
    decreases runs.len(),
{
    if runs.len() == 0 {
        Seq::empty()
    } else {
        decode_runs(runs.drop_last()) + Seq::new(runs.last().length as nat, |_i: int| runs.last().data)
    }
}

/// Total number of pixels that a list of runs stands for.
pub open spec fn runs_total<P>(runs: Seq<PixelRun<P>>) -> nat
    decreases runs.len(),
{
    if runs.len() == 0 {
        0
    } else {
        runs_total(runs.drop_last()) + runs.last().length as nat
    }
}

/// A list of runs is canonical when no run is empty and neighbouring runs differ.
pub open spec fn runs_canonical<P>(runs: Seq<PixelRun<P>>) -> bool {
    &&& forall|i: int| 0 <= i < runs.len() ==> #[trigger] runs[i].length > 0
    &&& forall|i: int| 0 <= i < runs.len() - 1 ==> #[trigger] runs[i].data != runs[i + 1].data
}

/// Appending one run appends its pixels.
pub proof fn lemma_decode_push<P>(runs: Seq<PixelRun<P>>, r: PixelRun<P>)
    ensures
        decode_runs(runs.push(r)) == decode_runs(runs) + Seq::new(r.length as nat, |_i: int| r.data),
        runs_total(runs.push(r)) == runs_total(runs) + r.length,
{
    assert(runs.push(r).drop_last() =~= runs);
}

/// The decoded length is the total of the run lengths.
pub proof fn lemma_decode_len<P>(runs: Seq<PixelRun<P>>)
    ensures
        decode_runs(runs).len() == runs_total(runs),
    decreases runs.len(),
{
    if runs.len() > 0 {
        lemma_decode_len(runs.drop_last());
    }
}

/// Decoding a prefix of the runs gives a prefix of the pixels.
pub proof fn lemma_decode_prefix<P>(runs: Seq<PixelRun<P>>, i: int)
    requires
        0 <= i <= runs.len(),
    ensures
        decode_runs(runs.take(i)).len() <= decode_runs(runs).len(),
        decode_runs(runs) =~= decode_runs(runs.take(i)) + decode_runs(runs.skip(i)),
    decreases runs.len() - i,
{
    lemma_decode_len(runs.take(i));
    lemma_decode_len(runs);
    if i == runs.len() {
        assert(runs.take(i) =~= runs);
        assert(runs.skip(i) =~= Seq::<PixelRun<P>>::empty());
    } else {
        lemma_decode_prefix(runs, i + 1);
        let r = runs[i];
        assert(runs.take(i + 1) =~= runs.take(i).push(r));
        lemma_decode_push(runs.take(i), r);
        lemma_decode_skip_first(runs.skip(i));
        assert(runs.skip(i).drop_first() =~= runs.skip(i + 1));
        lemma_decode_len(runs.take(i + 1));
    }
}

/// Decoding splits off the first run.
pub proof fn lemma_decode_skip_first<P>(runs: Seq<PixelRun<P>>)
    requires
        runs.len() > 0,
    ensures
        decode_runs(runs) =~= Seq::new(runs[0].length as nat, |_i: int| runs[0].data)
            + decode_runs(runs.drop_first()),
    decreases runs.len(),
{
    if runs.len() == 1 {
        assert(runs.drop_last() =~= Seq::<PixelRun<P>>::empty());
        assert(runs.drop_first() =~= Seq::<PixelRun<P>>::empty());
    } else {
        lemma_decode_skip_first(runs.drop_last());
        assert(runs.drop_last().drop_first() =~= runs.drop_first().drop_last());
        assert(runs.drop_first().last() == runs.last());
    }
}

/// Converts a sequence of pixels to a run-length-encoded one.
pub struct PixelRunner<P> {
    current_pixel: Option<P>,
    current_run_len: u32,
    runs: Vec<PixelRun<P>>,
}

impl<P: RunValue> PixelRunner<P> {
    /// The pixels put into the runner so far.
    pub closed spec fn pushed(&self) -> Seq<P> {
        match self.current_pixel {
            None => decode_runs(self.runs@),
            Some(c) => decode_runs(self.runs@) + Seq::new(self.current_run_len as nat, |_i: int| c),
        }
    }

    /// Internal consistency of the runner.
    pub closed spec fn wf(&self) -> bool {
        &&& runs_canonical(self.runs@)
        &&& match self.current_pixel {
            None => self.current_run_len == 0 && self.runs@.len() == 0,
            Some(c) => self.current_run_len > 0 && (self.runs@.len() > 0 ==> self.runs@.last().data
                != c),
        }
    }

    /// Whether one more pixel can be counted without the run length overflowing.
    pub closed spec fn can_put(&self, pixel: P) -> bool {
        self.current_pixel matches Some(c) && c == pixel ==> self.current_run_len < u32::MAX
    }

    pub fn new() -> (r: Self)
        ensures
            r.wf(),
            r.pushed() == Seq::<P>::empty(),
    {
        PixelRunner { current_pixel: None, current_run_len: 0, runs: Vec::new() }
    }

    /// Any runner with fewer than `u32::MAX` pixels can take one more.
    pub proof fn lemma_can_put(&self, pixel: P)
        requires
            self.wf(),
            self.pushed().len() < u32::MAX,
        ensures
            self.can_put(pixel),
    {
        if let Some(c) = self.current_pixel {
            lemma_decode_len(self.runs@);
        }
    }

    pub fn put_pixel(&mut self, pixel: P)
        requires
            old(self).wf(),
            old(self).can_put(pixel),
        ensures
            final(self).wf(),
            final(self).pushed() == old(self).pushed().push(pixel),
    {
        let ghost old_runs = self.runs@;
        match self.current_pixel {
            Some(current) => {
                if !pixel.same_as(&current) {
                    let run = PixelRun { length: self.current_run_len, data: current };
                    self.runs.push(run);
                    proof {
                        lemma_decode_push(old_runs, run);
                    }
                    self.current_pixel = Some(pixel);
                    self.current_run_len = 1;
                    assert(self.pushed() =~= old(self).pushed().push(pixel));
                } else {
                    self.current_run_len = self.current_run_len + 1;
                    assert(self.pushed() =~= old(self).pushed().push(pixel));
                }
            },
            None => {
                self.current_pixel = Some(pixel);
                self.current_run_len = 1;
                assert(self.pushed() =~= old(self).pushed().push(pixel));
            },
        }
    }

    /// The runs of everything put so far, in canonical form.
    pub fn build(self) -> (r: Vec<PixelRun<P>>)
        requires
            self.wf(),
        ensures
            decode_runs(r@) == self.pushed(),
            runs_canonical(r@),
    {
        let mut runs = self.runs;
        if self.current_run_len > 0 {
            match self.current_pixel {
                Some(c) => {
                    let run = PixelRun { length: self.current_run_len, data: c };
                    proof {
                        lemma_decode_push(runs@, run);
                    }
                    runs.push(run);
                },
                None => {},
            }
        }
        runs
    }
}

impl PixelRunner<RawPixel> {
    /// Finishes the runner into a world update for the rectangle that starts at
    /// `(x, y)` and is `w + 1` by `h + 1` pixels.
    pub fn into_noita_update(self, x: i32, y: i32, w: u8, h: u8) -> (r: NoitaWorldUpdate)
        requires
            self.wf(),
            self.pushed().len() <= u16::MAX,
        ensures
            r.header == (Header { x, y, w, h, run_count: r.runs@.len() as u16 }),
            decode_runs(r.runs@) == self.pushed(),
            runs_canonical(r.runs@),
            r.runs@.len() <= self.pushed().len(),
    {
        let runs = self.build();
        proof {
            lemma_runs_count_le_total(runs@);
            lemma_decode_len(runs@);
        }
        let run_count = runs.len() as u16;
        NoitaWorldUpdate { header: Header { x, y, w, h, run_count }, runs }
    }
}

/// In canonical form there are no more runs than pixels.
pub proof fn lemma_runs_count_le_total<P>(runs: Seq<PixelRun<P>>)
    requires
        forall|i: int| 0 <= i < runs.len() ==> #[trigger] runs[i].length > 0,
    ensures
        runs.len() <= runs_total(runs),
    decreases runs.len(),
{
    if runs.len() > 0 {
        assert(runs.last().length > 0);
        lemma_runs_count_le_total(runs.drop_last());
    }
}

/// Header of a world update: the rectangle the pixels fill, row by row.
/// `w` and `h` are the width and height minus one.
#[derive(Debug, Clone, Copy, PartialEq, Eq, Structural)]
pub struct Header {
    pub x: i32,
    pub y: i32,
    pub w: u8,
    pub h: u8,
    pub run_count: u16,
}

/// Pixels of a rectangle of the world, for the game.
pub struct NoitaWorldUpdate {
    pub header: Header,
    pub runs: Vec<PixelRun<RawPixel>>,
}

} // verus!
