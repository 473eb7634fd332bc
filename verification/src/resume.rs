//! What a run has done, and what is left of it when it starts again.
use std::collections::BTreeSet;
use vstd::prelude::*;

verus! {

/// A part of the video that is encoded by itself.
pub struct Chunk {
    pub idx: u16,
    pub start: usize,
    pub end: usize,
    /// Encoder parameters of its own.
    pub params: Option<String>,
    /// The number of its template.
    pub tmpl: u16,
}

/// A chunk that is done.
#[derive(Clone, Copy, Debug, PartialEq, Eq, Structural)]
pub struct ChunkComp {
    pub idx: u16,
    pub frames: usize,
    pub sz: u64,
}

/// What a run has done.
pub struct ResumeInf {
    pub chnks_done: Vec<ChunkComp>,
    pub prior_secs: u64,
}

/// The frames of chunks that are done.
pub open spec fn frames_of(done: Seq<ChunkComp>) -> nat
    decreases done.len(),
{
    if done.len() == 0 {
        0
    } else {
        frames_of(done.drop_last()) + done.last().frames as nat
    }
}

/// The bytes of chunks that are done.
pub open spec fn bytes_of(done: Seq<ChunkComp>) -> nat
    decreases done.len(),
{
    if done.len() == 0 {
        0
    } else {
        bytes_of(done.drop_last()) + done.last().sz as nat
    }
}

/// The numbers of chunks that are done.
pub open spec fn indices_of(done: Seq<ChunkComp>) -> Set<u16> {
    done.map_values(|c: ChunkComp| c.idx).to_set()
}

proof fn lemma_sums_grow(done: Seq<ChunkComp>, n: int)
    requires
        0 <= n <= done.len(),
    ensures
        frames_of(done.take(n)) <= frames_of(done),
        bytes_of(done.take(n)) <= bytes_of(done),
    decreases done.len() - n,
{
    if n < done.len() {
        assert(done.take(n + 1).drop_last() =~= done.take(n));
        lemma_sums_grow(done, n + 1);
    } else {
        assert(done.take(n) =~= done);
    }
}

fn sum_frames(done: &Vec<ChunkComp>) -> (r: usize)
    requires
        frames_of(done@) <= usize::MAX,
    ensures
        r == frames_of(done@),
{
    let mut r: usize = 0;
    let mut i: usize = 0;
    assert(done@.take(0) =~= seq![]);
    while i < done.len()
        invariant
            i <= done@.len(),
            frames_of(done@) <= usize::MAX,
            r == frames_of(done@.take(i as int)),
        decreases done@.len() - i,
    {
        assert(done@.take(i + 1).drop_last() =~= done@.take(i as int));
        proof {
            lemma_sums_grow(done@, i + 1);
        }
        r = r + done[i].frames;
        i = i + 1;
    }
    assert(done@.take(i as int) =~= done@);
    r
}

fn sum_bytes(done: &Vec<ChunkComp>) -> (r: u64)
    requires
        bytes_of(done@) <= u64::MAX,
    ensures
        r == bytes_of(done@),
{
    let mut r: u64 = 0;
    let mut i: usize = 0;
    assert(done@.take(0) =~= seq![]);
    while i < done.len()
        invariant
            i <= done@.len(),
            bytes_of(done@) <= u64::MAX,
            r == bytes_of(done@.take(i as int)),
        decreases done@.len() - i,
    {
        assert(done@.take(i + 1).drop_last() =~= done@.take(i as int));
        proof {
            lemma_sums_grow(done@, i + 1);
        }
        r = r + done[i].sz;
        i = i + 1;
    }
    assert(done@.take(i as int) =~= done@);
    r
}

/// What a run has done, as it was kept, or nothing.
pub fn load_resume_data(kept: Option<ResumeInf>) -> (r: ResumeInf)
    ensures
        match kept {
            Some(k) => r == k,
            None => r.chnks_done@.len() == 0 && r.prior_secs == 0,
        },
{
    match kept {
        Some(k) => k,
        None => ResumeInf { chnks_done: Vec::new(), prior_secs: 0 },
    }
}

/// The numbers of the chunks that are done, how many they are, and how many frames they have.
pub fn build_skip_set(data: &ResumeInf) -> (r: (BTreeSet<u16>, usize, usize))
    requires
        frames_of(data.chnks_done@) <= usize::MAX,
    ensures
        r.0@ == indices_of(data.chnks_done@),
        r.1 == indices_of(data.chnks_done@).len(),
        r.2 == frames_of(data.chnks_done@),
{
    broadcast use vstd::std_specs::btree::group_btree_axioms;
    let done = &data.chnks_done;
    let mut set: BTreeSet<u16> = BTreeSet::new();
    let mut i: usize = 0;
    let ghost ids = done@.map_values(|c: ChunkComp| c.idx);
    assert(ids.take(0).to_set() =~= Set::<u16>::empty());
    while i < done.len()
        invariant
            i <= done@.len(),
            ids == done@.map_values(|c: ChunkComp| c.idx),
            set@ == ids.take(i as int).to_set(),
        decreases done@.len() - i,
    {
        set.insert(done[i].idx);
        assert(ids.take(i + 1) =~= ids.take(i as int).push(ids[i as int]));
        assert(ids.take(i + 1).to_set() =~= ids.take(i as int).to_set().insert(ids[i as int])) by {
            assert forall|x: u16|
                ids.take(i + 1).contains(x) <==> ids.take(i as int).contains(x) || x
                    == ids[i as int] by {
                if ids.take(i as int).contains(x) {
                    let k = choose|k: int| 0 <= k < i && ids.take(i as int)[k] == x;
                    assert(ids.take(i + 1)[k] == x);
                }
                if x == ids[i as int] {
                    assert(ids.take(i + 1)[i as int] == x);
                }
            }
        }
        i = i + 1;
    }
    assert(ids.take(i as int) =~= ids);
    let n: usize = set.len();
    (set, n, sum_frames(done))
}

/// The counts of a run, and the chunks that they count.
pub struct WorkerStats {
    pub completed: usize,
    pub completed_frames: usize,
    pub tot_sz: u64,
    pub completions: ResumeInf,
}

/// A chunk is counted with its frames and bytes and kept behind those that are done.
pub open spec fn keeps(was: WorkerStats, now: WorkerStats, c: ChunkComp) -> bool {
    &&& now.completed_frames == was.completed_frames.wrapping_add(c.frames)
    &&& now.tot_sz == was.tot_sz.wrapping_add(c.sz)
    &&& now.completions.chnks_done@ == was.completions.chnks_done@.push(c)
    &&& now.completions.prior_secs == was.completions.prior_secs
}

/// A chunk is counted as done, and kept.
pub open spec fn finishes(was: WorkerStats, now: WorkerStats, c: ChunkComp) -> bool {
    now.completed == was.completed.wrapping_add(1) && keeps(was, now, c)
}

/// A chunk is counted as done, with its frames and bytes, and kept elsewhere.
pub open spec fn passes(was: WorkerStats, now: WorkerStats, c: ChunkComp) -> bool {
    &&& now.completed == was.completed.wrapping_add(1)
    &&& now.completed_frames == was.completed_frames.wrapping_add(c.frames)
    &&& now.tot_sz == was.tot_sz.wrapping_add(c.sz)
    &&& now.completions == was.completions
}

impl WorkerStats {
    /// The counts of frames and bytes are those of the chunks that are done.
    pub open spec fn counts_done(self) -> bool {
        &&& self.completed_frames == frames_of(self.completions.chnks_done@)
        &&& self.tot_sz == bytes_of(self.completions.chnks_done@)
    }

    /// The counts at the start of a run.
    pub fn new(completed_cnt: usize, data: ResumeInf) -> (r: WorkerStats)
        requires
            frames_of(data.chnks_done@) <= usize::MAX,
            bytes_of(data.chnks_done@) <= u64::MAX,
        ensures
            r.counts_done(),
            r.completed == completed_cnt,
            r.completions == data,
    {
        let completed_frames: usize = sum_frames(&data.chnks_done);
        let tot_sz: u64 = sum_bytes(&data.chnks_done);
        WorkerStats { completed: completed_cnt, completed_frames, tot_sz, completions: data }
    }

    /// Keeps a chunk that is done, and counts its frames and bytes. The counts wrap around beyond
    /// the machine word.
    pub fn add_completion(&mut self, completion: ChunkComp)
        ensures
            final(self).completed == old(self).completed,
            keeps(*old(self), *final(self), completion),
    {
        self.completed_frames = self.completed_frames.wrapping_add(completion.frames);
        self.tot_sz = self.tot_sz.wrapping_add(completion.sz);
        self.completions.chnks_done.push(completion);
    }

    /// A worker is done with a chunk: the chunk is counted and kept.
    pub fn finish_chunk(&mut self, idx: u16, frames: usize, sz: u64)
        ensures
            finishes(*old(self), *final(self), (ChunkComp { idx, frames, sz })),
    {
        self.completed = self.completed.wrapping_add(1);
        self.add_completion(ChunkComp { idx, frames, sz });
    }

    /// Counts a chunk that is kept elsewhere.
    pub fn count_chunk(&mut self, completion: ChunkComp)
        ensures
            passes(*old(self), *final(self), completion),
    {
        self.completed = self.completed.wrapping_add(1);
        self.completed_frames = self.completed_frames.wrapping_add(completion.frames);
        self.tot_sz = self.tot_sz.wrapping_add(completion.sz);
    }
}

/// While the sums fit the machine word, the counts stay those of the chunks that are done.
pub proof fn law_counts_follow_chunks(
    done: Seq<ChunkComp>,
    c: ChunkComp,
    frames: usize,
    sz: u64,
)
    requires
        frames == frames_of(done),
        sz == bytes_of(done),
        frames_of(done.push(c)) <= usize::MAX,
        bytes_of(done.push(c)) <= u64::MAX,
    ensures
        frames.wrapping_add(c.frames) == frames_of(done.push(c)),
        sz.wrapping_add(c.sz) == bytes_of(done.push(c)),
{
    assert(done.push(c).drop_last() =~= done);
}

/// How many chunks are not among those that are done.
pub open spec fn pending_of(chnks: Seq<Chunk>, skip: Set<u16>) -> nat
    decreases chnks.len(),
{
    if chnks.len() == 0 {
        0
    } else {
        pending_of(chnks.drop_last(), skip) + if skip.contains(chnks.last().idx) {
            0nat
        } else {
            1nat
        }
    }
}

/// How many chunks are still to be done.
pub fn pending_chunks(chnks: &Vec<Chunk>, skip: &BTreeSet<u16>) -> (n: usize)
    ensures
        n == pending_of(chnks@, skip@),
        n <= chnks@.len(),
{
    broadcast use vstd::std_specs::btree::group_btree_axioms;
    let mut n: usize = 0;
    let mut i: usize = 0;
    assert(chnks@.take(0) =~= seq![]);
    while i < chnks.len()
        invariant
            i <= chnks@.len(),
            n <= i,
            n == pending_of(chnks@.take(i as int), skip@),
        decreases chnks@.len() - i,
    {
        assert(chnks@.take(i + 1).drop_last() =~= chnks@.take(i as int));
        if !skip.contains(&chnks[i].idx) {
            n = n + 1;
        }
        i = i + 1;
    }
    assert(chnks@.take(i as int) =~= chnks@);
    n
}

/// The frames of all chunks.
pub open spec fn frames_in(chnks: Seq<Chunk>) -> nat
    decreases chnks.len(),
{
    if chnks.len() == 0 {
        0
    } else {
        frames_in(chnks.drop_last()) + (chnks.last().end - chnks.last().start) as nat
    }
}

/// No chunk ends before it starts.
pub open spec fn ordered(chnks: Seq<Chunk>) -> bool {
    forall|i: int| 0 <= i < chnks.len() ==> (#[trigger] chnks[i]).start <= chnks[i].end
}

proof fn lemma_frames_in_grow(chnks: Seq<Chunk>, n: int)
    requires
        0 <= n <= chnks.len(),
    ensures
        frames_in(chnks.take(n)) <= frames_in(chnks),
    decreases chnks.len() - n,
{
    if n < chnks.len() {
        assert(chnks.take(n + 1).drop_last() =~= chnks.take(n));
        lemma_frames_in_grow(chnks, n + 1);
    } else {
        assert(chnks.take(n) =~= chnks);
    }
}

/// The frames of all chunks.
pub fn total_frames(chnks: &Vec<Chunk>) -> (n: usize)
    requires
        ordered(chnks@),
        frames_in(chnks@) <= usize::MAX,
    ensures
        n == frames_in(chnks@),
{
    let mut n: usize = 0;
    let mut i: usize = 0;
    assert(chnks@.take(0) =~= seq![]);
    while i < chnks.len()
        invariant
            i <= chnks@.len(),
            ordered(chnks@),
            frames_in(chnks@) <= usize::MAX,
            n == frames_in(chnks@.take(i as int)),
        decreases chnks@.len() - i,
    {
        assert(chnks@.take(i + 1).drop_last() =~= chnks@.take(i as int));
        proof {
            lemma_frames_in_grow(chnks@, i + 1);
        }
        n = n + (chnks[i].end - chnks[i].start);
        i = i + 1;
    }
    assert(chnks@.take(i as int) =~= chnks@);
    n
}

/// Whether an earlier run left chunks that are done.
pub open spec fn has_done(kept: Option<&ResumeInf>) -> bool {
    kept matches Some(k) && k.chnks_done@.len() > 0
}

/// Whether an earlier run left chunks that are done.
pub fn has_chunks(kept: Option<&ResumeInf>) -> (r: bool)
    ensures
        r == has_done(kept),
{
    match kept {
        Some(k) => k.chnks_done.len() > 0,
        None => false,
    }
}

/// A chunk that was left and is done now is no longer left, and every other chunk is as before.
pub proof fn law_done_chunk_is_left_no_more(chnks: Seq<Chunk>, skip: Set<u16>, i: int)
    requires
        0 <= i < chnks.len(),
        !skip.contains(chnks[i].idx),
        forall|a: int, b: int|
            0 <= a < b < chnks.len() ==> (#[trigger] chnks[a]).idx != (#[trigger] chnks[b]).idx,
    ensures
        pending_of(chnks, skip.insert(chnks[i].idx)) + 1 == pending_of(chnks, skip),
    decreases chnks.len(),
{
    let init = chnks.drop_last();
    let idx = chnks[i].idx;
    let last = chnks.len() - 1;
    assert(forall|k: int| 0 <= k < init.len() ==> #[trigger] init[k] == chnks[k]);
    if i == last {
        assert forall|k: int| 0 <= k < init.len() implies (#[trigger] init[k]).idx != idx by {
            assert(chnks[k].idx != chnks[last].idx);
        }
        lemma_other_chunks_stay(init, skip, idx);
    } else {
        assert(chnks[i].idx != chnks[last].idx);
        law_done_chunk_is_left_no_more(init, skip, i);
    }
}

proof fn lemma_other_chunks_stay(chnks: Seq<Chunk>, skip: Set<u16>, idx: u16)
    requires
        forall|k: int| 0 <= k < chnks.len() ==> (#[trigger] chnks[k]).idx != idx,
    ensures
        pending_of(chnks, skip.insert(idx)) == pending_of(chnks, skip),
    decreases chnks.len(),
{
    if chnks.len() > 0 {
        let init = chnks.drop_last();
        assert(forall|k: int| 0 <= k < init.len() ==> #[trigger] init[k] == chnks[k]);
        lemma_other_chunks_stay(init, skip, idx);
        assert(chnks[chnks.len() - 1].idx != idx);
    }
}

/// The numbers of chunks that are done, with another behind them.
proof fn lemma_indices_grow(done: Seq<ChunkComp>, c: ChunkComp)
    ensures
        indices_of(done.push(c)) == indices_of(done).insert(c.idx),
{
    let a = done.map_values(|x: ChunkComp| x.idx);
    let b = done.push(c).map_values(|x: ChunkComp| x.idx);
    assert(b =~= a.push(c.idx));
    assert forall|k: u16| b.to_set().contains(k) == a.to_set().insert(c.idx).contains(k) by {
        if a.contains(k) {
            let i = choose|i: int| 0 <= i < a.len() && a[i] == k;
            assert(b[i] == k);
        }
        if k == c.idx {
            assert(b[a.len() as int] == k);
        }
        if b.contains(k) && k != c.idx {
            let i = choose|i: int| 0 <= i < b.len() && b[i] == k;
            assert(a[i] == k);
        }
    }
    assert(b.to_set() =~= a.to_set().insert(c.idx));
}

/// Whether chunks were left and are finished, each once.
pub open spec fn finishes_once(
    chnks: Seq<Chunk>,
    done: Seq<ChunkComp>,
    more: Seq<ChunkComp>,
) -> bool {
    &&& forall|k: int|
        0 <= k < more.len() ==> !indices_of(done).contains((#[trigger] more[k]).idx) && exists|i: int|
            0 <= i < chnks.len() && (#[trigger] chnks[i]).idx == more[k].idx
    &&& forall|a: int, b: int|
        0 <= a < b < more.len() ==> (#[trigger] more[a]).idx != (#[trigger] more[b]).idx
}

proof fn lemma_finishing_counts_down(
    chnks: Seq<Chunk>,
    done: Seq<ChunkComp>,
    more: Seq<ChunkComp>,
)
    requires
        forall|a: int, b: int|
            0 <= a < b < chnks.len() ==> (#[trigger] chnks[a]).idx != (#[trigger] chnks[b]).idx,
        finishes_once(chnks, done, more),
    ensures
        pending_of(chnks, indices_of(done + more)) + more.len() == pending_of(
            chnks,
            indices_of(done),
        ),
        forall|x: u16|
            #[trigger] indices_of(done + more).contains(x) <==> indices_of(done).contains(x) || exists|
                k: int,
            | 0 <= k < more.len() && (#[trigger] more[k]).idx == x,
    decreases more.len(),
{
    if more.len() == 0 {
        assert(done + more =~= done);
    } else {
        let init = more.drop_last();
        let c = more.last();
        let n = init.len() as int;
        assert(c == more[n]);
        assert(forall|k: int| 0 <= k < n ==> #[trigger] init[k] == more[k]);
        lemma_finishing_counts_down(chnks, done, init);
        assert(done + more =~= (done + init).push(c));
        lemma_indices_grow(done + init, c);
        assert(!indices_of(done + init).contains(c.idx)) by {
            if exists|k: int| 0 <= k < init.len() && (#[trigger] init[k]).idx == c.idx {
                let k = choose|k: int| 0 <= k < init.len() && (#[trigger] init[k]).idx == c.idx;
                assert(more[k].idx != more[n].idx);
            }
        }
        let i = choose|i: int| 0 <= i < chnks.len() && (#[trigger] chnks[i]).idx == c.idx;
        law_done_chunk_is_left_no_more(chnks, indices_of(done + init), i);
        assert forall|x: u16|
            #[trigger] indices_of(done + more).contains(x) <==> indices_of(done).contains(x) || exists|
                k: int,
            | 0 <= k < more.len() && (#[trigger] more[k]).idx == x by {
            if exists|k: int| 0 <= k < more.len() && (#[trigger] more[k]).idx == x {
                let k = choose|k: int| 0 <= k < more.len() && (#[trigger] more[k]).idx == x;
                if k < n {
                    assert(init[k].idx == x);
                }
            }
            if indices_of(done + init).contains(x) && !indices_of(done).contains(x) {
                let k = choose|k: int| 0 <= k < init.len() && (#[trigger] init[k]).idx == x;
                assert(more[k].idx == x);
            }
            if x == c.idx {
                assert(more[n].idx == x);
            }
        }
    }
}

/// Once every chunk that was left is finished, none is left; when each is finished once, as many
/// are finished as were left.
pub proof fn law_finishing_all_leaves_none(
    chnks: Seq<Chunk>,
    done: Seq<ChunkComp>,
    more: Seq<ChunkComp>,
)
    requires
        forall|a: int, b: int|
            0 <= a < b < chnks.len() ==> (#[trigger] chnks[a]).idx != (#[trigger] chnks[b]).idx,
        finishes_once(chnks, done, more),
        forall|i: int|
            0 <= i < chnks.len() && !indices_of(done).contains((#[trigger] chnks[i]).idx)
                ==> exists|k: int| 0 <= k < more.len() && (#[trigger] more[k]).idx == chnks[i].idx,
    ensures
        pending_of(chnks, indices_of(done + more)) == 0,
        more.len() == pending_of(chnks, indices_of(done)),
{
    lemma_finishing_counts_down(chnks, done, more);
    assert forall|i: int| 0 <= i < chnks.len() implies indices_of(done + more).contains(
        (#[trigger] chnks[i]).idx,
    ) by {}
    law_pending_at_the_ends(chnks, indices_of(done + more));
}

/// When every chunk is among those that are done, none is left; when none is, all are left.
pub proof fn law_pending_at_the_ends(chnks: Seq<Chunk>, skip: Set<u16>)
    ensures
        (forall|i: int| 0 <= i < chnks.len() ==> skip.contains((#[trigger] chnks[i]).idx))
            ==> pending_of(chnks, skip) == 0,
        (forall|i: int| 0 <= i < chnks.len() ==> !skip.contains((#[trigger] chnks[i]).idx))
            ==> pending_of(chnks, skip) == chnks.len(),
    decreases chnks.len(),
{
    if chnks.len() > 0 {
        let init = chnks.drop_last();
        law_pending_at_the_ends(init, skip);
        assert(chnks.last() == chnks[chnks.len() - 1]);
        assert(forall|i: int| 0 <= i < init.len() ==> #[trigger] init[i] == chnks[i]);
    }
}


/// While the sums fit the machine word, counts that are those of the chunks that are done stay so
/// when a chunk is finished; the chunk is the last of them, and it is one more.
pub proof fn law_finished_chunk_is_counted(was: WorkerStats, now: WorkerStats, c: ChunkComp)
    requires
        finishes(was, now, c),
        was.counts_done(),
        was.completed < usize::MAX,
        was.completed_frames + c.frames <= usize::MAX,
        was.tot_sz + c.sz <= u64::MAX,
    ensures
        now.counts_done(),
        now.completed == was.completed + 1,
        now.completed_frames == was.completed_frames + c.frames,
        now.tot_sz == was.tot_sz + c.sz,
        now.completions.chnks_done@.len() == was.completions.chnks_done@.len() + 1,
        now.completions.chnks_done@.last() == c,
        now.completions.chnks_done@.drop_last() == was.completions.chnks_done@,
        now.completions.prior_secs == was.completions.prior_secs,
{
    let done = now.completions.chnks_done@;
    assert(done.drop_last() =~= was.completions.chnks_done@);
}

/// A chunk that is kept elsewhere is counted as one that is kept here: the counts move alike.
pub proof fn law_chunks_are_counted_alike(
    was: WorkerStats,
    here: WorkerStats,
    elsewhere: WorkerStats,
    c: ChunkComp,
)
    requires
        finishes(was, here, c),
        passes(was, elsewhere, c),
    ensures
        here.completed == elsewhere.completed,
        here.completed_frames == elsewhere.completed_frames,
        here.tot_sz == elsewhere.tot_sz,
        was.completed_frames + c.frames <= usize::MAX ==> elsewhere.completed_frames
            == was.completed_frames + c.frames,
        was.tot_sz + c.sz <= u64::MAX ==> elsewhere.tot_sz == was.tot_sz + c.sz,
        was.completed < usize::MAX ==> elsewhere.completed == was.completed + 1,
        elsewhere.completions == was.completions,
{
}

/// The frames and the bytes of two lists of chunks together are those of both, and those of one
/// chunk are its own.
pub proof fn law_done_chunks_add_up(a: Seq<ChunkComp>, b: Seq<ChunkComp>, c: ChunkComp)
    ensures
        frames_of(a + b) == frames_of(a) + frames_of(b),
        bytes_of(a + b) == bytes_of(a) + bytes_of(b),
        frames_of(seq![c]) == c.frames,
        bytes_of(seq![c]) == c.sz,
        frames_of(seq![]) == 0,
        bytes_of(seq![]) == 0,
    decreases b.len(),
{
    assert(seq![c].drop_last() =~= seq![]);
    assert(frames_of(seq![c].drop_last()) == 0 && bytes_of(seq![c].drop_last()) == 0);
    if b.len() == 0 {
        assert(a + b =~= a);
    } else {
        assert((a + b).drop_last() =~= a + b.drop_last());
        law_done_chunks_add_up(a, b.drop_last(), c);
    }
}

/// A chunk is passed over exactly when one of its number is done; as many numbers are passed over as
/// are done, each once, and the frames are those of all that are done.
pub proof fn law_done_chunks_are_passed_over(
    data: &ResumeInf,
    r: (BTreeSet<u16>, usize, usize),
    idx: u16,
)
    requires
        call_ensures(build_skip_set, (data,), r),
    ensures
        r.0@.contains(idx) <==> exists|k: int|
            0 <= k < data.chnks_done@.len() && (#[trigger] data.chnks_done@[k]).idx == idx,
        r.1 == r.0@.len(),
        r.2 == frames_of(data.chnks_done@),
{
    let done = data.chnks_done@;
    let ids = done.map_values(|c: ChunkComp| c.idx);
    if ids.contains(idx) {
        let k = choose|k: int| 0 <= k < ids.len() && ids[k] == idx;
        assert(done[k].idx == idx);
    }
    if exists|k: int| 0 <= k < done.len() && (#[trigger] done[k]).idx == idx {
        let k = choose|k: int| 0 <= k < done.len() && (#[trigger] done[k]).idx == idx;
        assert(ids[k] == idx);
    }
}

/// Whether each chunk starts where the one before it ends.
pub open spec fn follow_on(chnks: Seq<Chunk>) -> bool {
    forall|i: int|
        1 <= i < chnks.len() ==> (#[trigger] chnks[i]).start == chnks[i - 1].end
}

/// Chunks that follow on from each other have as many frames as lie between the first start and the
/// last end.
pub proof fn law_chunks_cover_the_frames(chnks: Seq<Chunk>)
    requires
        chnks.len() > 0,
        ordered(chnks),
        follow_on(chnks),
    ensures
        frames_in(chnks) == chnks.last().end - chnks[0].start,
    decreases chnks.len(),
{
    let init = chnks.drop_last();
    assert(chnks.last() == chnks[chnks.len() - 1]);
    assert(chnks.last().start <= chnks.last().end);
    if chnks.len() == 1 {
        assert(frames_in(init) == 0);
    } else {
        assert(forall|i: int| 0 <= i < init.len() ==> #[trigger] init[i] == chnks[i]);
        assert(forall|i: int| 1 <= i < init.len() ==> #[trigger] init[i] == chnks[i]);
        assert forall|i: int| 1 <= i < init.len() implies (#[trigger] init[i]).start == init[i
            - 1].end by {
            assert(chnks[i].start == chnks[i - 1].end);
        }
        law_chunks_cover_the_frames(init);
        assert(chnks[chnks.len() - 1].start == chnks[chnks.len() - 2].end);
        assert(init.last() == chnks[chnks.len() - 2]);
    }
}

/// A run starts with what was kept: its counts are those of the chunks that are done, and without
/// anything kept they are nothing.
pub proof fn law_run_starts_with_what_was_kept(
    kept: Option<ResumeInf>,
    data: ResumeInf,
    n: usize,
    stats: WorkerStats,
)
    requires
        call_ensures(load_resume_data, (kept,), data),
        call_ensures(WorkerStats::new, (n, data), stats),
    ensures
        stats.counts_done(),
        stats.completed == n,
        kept is None ==> stats.completed_frames == 0 && stats.tot_sz == 0
            && stats.completions.prior_secs == 0,
        kept matches Some(k) ==> stats.completions == k,
{
}


/// Chunks are finished, counted as left and added up as the laws on them say.
pub proof fn law_chunks_are_counted(
    stats: &mut WorkerStats,
    idx: u16,
    frames: usize,
    sz: u64,
    chnks: &Vec<Chunk>,
    skip: &BTreeSet<u16>,
    left: usize,
    total: usize,
)
    requires
        call_ensures(WorkerStats::finish_chunk, (stats, idx, frames, sz), ()),
        call_ensures(pending_chunks, (chnks, skip), left),
        call_ensures(total_frames, (chnks,), total),
    ensures
        finishes(*old(stats), *final(stats), (ChunkComp { idx, frames, sz })),
        final(stats).completions.chnks_done@.last() == (ChunkComp { idx, frames, sz }),
        left == pending_of(chnks@, skip@) && left <= chnks@.len(),
        total == frames_in(chnks@),
        ordered(chnks@) && follow_on(chnks@) && chnks@.len() > 0 ==> total == chnks@.last().end
            - chnks@[0].start,
{
    if ordered(chnks@) && follow_on(chnks@) && chnks@.len() > 0 {
        law_chunks_cover_the_frames(chnks@);
    }
}

} // verus!
