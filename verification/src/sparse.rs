//! Sparse-aware writes for guest disk images.
//!
//! A shipped root filesystem is mostly zeros. Seeking past a run of zeros
//! leaves a hole, and reads of a hole return zeros, so skipping the zeros is
//! both smaller and faster than writing them. The output is byte-identical to
//! a dense copy: that is the property everything here preserves.
//!
//! The writer decides what to do to the output file; the caller reads the
//! source, in pieces of any size, and carries the decisions out.

use crate::bytes::slice_of;
use vstd::prelude::*;

verus! {

/// Zero-run granularity: NTFS's sparse allocation unit, and a multiple of the
/// 4 KiB blocks that ext4 and APFS use.
pub const BLOCK: usize = 65536;

/// Read and write unit. Holes are decided per block, but adjacent non-empty
/// blocks of a chunk are written as one. A multiple of the block size.
pub const IO_CHUNK: usize = 1048576;

/// One step on the output file.
#[derive(Debug)]
pub enum FileOp {
    /// Move the cursor to an absolute position.
    SeekTo(u64),
    /// Write at the cursor, which moves behind what was written.
    Write(Vec<u8>),
    /// Set the length: cut off, or extend with zeros.
    SetLen(u64),
}

/// A step as its mathematical content.
pub enum OpView {
    SeekTo(int),
    Write(Seq<u8>),
    SetLen(int),
}

impl View for FileOp {
    type V = OpView;

    open spec fn view(&self) -> OpView {
        match self {
            FileOp::SeekTo(n) => OpView::SeekTo(*n as int),
            FileOp::Write(b) => OpView::Write(b@),
            FileOp::SetLen(n) => OpView::SetLen(*n as int),
        }
    }
}

pub open spec fn op_views(ops: Seq<FileOp>) -> Seq<OpView> {
    ops.map_values(|op: FileOp| op@)
}

/// A file: its bytes and the cursor.
pub struct FileState {
    pub data: Seq<u8>,
    pub pos: int,
}

impl FileState {
    /// What a read returns at `i`: past the end, or in a hole, zero.
    pub open spec fn byte(self, i: int) -> u8 {
        if 0 <= i < self.data.len() {
            self.data[i]
        } else {
            0
        }
    }

    /// The file after one step, as POSIX files behave.
    pub open spec fn step(self, op: OpView) -> FileState {
        match op {
            OpView::SeekTo(n) => FileState { data: self.data, pos: n },
            OpView::Write(b) => FileState {
                data: Seq::new(
                    if self.pos + b.len() > self.data.len() {
                        (self.pos + b.len()) as nat
                    } else {
                        self.data.len()
                    },
                    |i: int|
                        if self.pos <= i < self.pos + b.len() {
                            b[i - self.pos]
                        } else {
                            self.byte(i)
                        },
                ),
                pos: self.pos + b.len(),
            },
            OpView::SetLen(n) => FileState {
                data: Seq::new(n as nat, |i: int| self.byte(i)),
                pos: self.pos,
            },
        }
    }

    pub open spec fn steps(self, ops: Seq<OpView>) -> FileState
        decreases ops.len(),
    {
        if ops.len() == 0 {
            self
        } else {
            self.steps(ops.drop_last()).step(ops.last())
        }
    }
}

/// A newly created file.
pub open spec fn new_file() -> FileState {
    FileState { data: Seq::empty(), pos: 0 }
}

/// Where the block that starts at `at` ends.
pub open spec fn block_end(buf: Seq<u8>, at: int) -> int {
    if at + BLOCK < buf.len() {
        at + BLOCK
    } else {
        buf.len() as int
    }
}

/// Whether the block that starts at `at` holds nothing but zeros.
pub open spec fn zero_block(buf: Seq<u8>, at: int) -> bool {
    forall|i: int| at <= i < block_end(buf, at) ==> #[trigger] buf[i] == 0
}

/// Where the run of non-empty blocks that starts at `at` ends.
pub open spec fn run_end(buf: Seq<u8>, at: int) -> int
    decreases buf.len() - at,
{
    if at < 0 || at >= buf.len() || zero_block(buf, at) {
        at
    } else {
        run_end(buf, block_end(buf, at))
    }
}

/// The maximal runs of non-empty blocks from `at` on.
pub open spec fn runs_from(buf: Seq<u8>, at: int) -> Seq<(int, int)>
    decreases buf.len() - at,
{
    if at < 0 || at >= buf.len() {
        Seq::empty()
    } else if zero_block(buf, at) {
        runs_from(buf, block_end(buf, at))
    } else {
        proof {
            run_ends_within(buf, at);
        }
        let end = run_end(buf, at);
        seq![(at, end)] + runs_from(buf, end)
    }
}

fn is_zero_block(buf: &[u8], at: usize) -> (r: bool)
    requires
        at < buf@.len(),
    ensures
        r == zero_block(buf@, at as int),
{
    let end: usize = if buf.len() - at > BLOCK { at + BLOCK } else { buf.len() };
    let mut i: usize = at;
    while i < end
        invariant
            at <= i <= end <= buf@.len(),
            end == block_end(buf@, at as int),
            forall|j: int| at <= j < i ==> #[trigger] buf@[j] == 0,
        decreases end - i,
    {
        if buf[i] != 0 {
            assert(buf@[i as int] != 0);
            return false;
        }
        i = i + 1;
    }
    true
}

/// A run of non-empty blocks ends behind its start and within the buffer.
pub proof fn run_ends_within(buf: Seq<u8>, at: int)
    requires
        0 <= at <= buf.len(),
    ensures
        at <= run_end(buf, at) <= buf.len(),
        at < buf.len() && !zero_block(buf, at) ==> run_end(buf, at) > at,
    decreases buf.len() - at,
{
    if at < buf.len() && !zero_block(buf, at) {
        run_ends_within(buf, block_end(buf, at));
    }
}

/// The run of a chunk as pairs of positions.
pub open spec fn pairs(runs: Seq<(usize, usize)>) -> Seq<(int, int)> {
    runs.map_values(|r: (usize, usize)| (r.0 as int, r.1 as int))
}

/// The maximal runs of non-empty blocks of a chunk, in order.
pub fn nonzero_runs(buf: &[u8]) -> (runs: Vec<(usize, usize)>)
    ensures
        pairs(runs@) == runs_from(buf@, 0),
{
    let n: usize = buf.len();
    let mut runs: Vec<(usize, usize)> = Vec::new();
    let mut at: usize = 0;
    assert(pairs(runs@) + runs_from(buf@, 0) =~= runs_from(buf@, 0));
    while at < n
        invariant
            at <= n,
            n == buf@.len(),
            pairs(runs@) + runs_from(buf@, at as int) == runs_from(buf@, 0),
        decreases n - at,
    {
        let end: usize = if n - at > BLOCK { at + BLOCK } else { n };
        if is_zero_block(buf, at) {
            at = end;
        } else {
            let mut stop: usize = end;
            let ghost goal = run_end(buf@, at as int);
            while stop < n && !is_zero_block(buf, stop)
                invariant
                    at < stop <= n,
                    n == buf@.len(),
                    run_end(buf@, stop as int) == goal,
                decreases n - stop,
            {
                stop = if n - stop > BLOCK { stop + BLOCK } else { n };
            }
            let ghost before = pairs(runs@);
            proof {
                assert(run_end(buf@, stop as int) == stop);
                run_ends_within(buf@, at as int);
            }
            runs.push((at, stop));
            proof {
                assert(pairs(runs@) =~= before.push((at as int, stop as int)));
                assert(before + (seq![(at as int, stop as int)] + runs_from(buf@, stop as int))
                    =~= pairs(runs@) + runs_from(buf@, stop as int));
            }
            at = stop;
        }
    }
    assert(pairs(runs@) + runs_from(buf@, at as int) =~= pairs(runs@));
    runs
}

/// The cursor after the runs of a chunk at `base` were written.
pub open spec fn cursor_after(runs: Seq<(int, int)>, base: int, cursor: int) -> int {
    if runs.len() == 0 {
        cursor
    } else {
        base + runs.last().1
    }
}

/// The steps that write the runs of a chunk at `base`: a seek wherever the
/// cursor stands elsewhere, then the run.
pub open spec fn run_ops(chunk: Seq<u8>, runs: Seq<(int, int)>, base: int, cursor: int) -> Seq<
    OpView,
>
    decreases runs.len(),
{
    if runs.len() == 0 {
        Seq::empty()
    } else {
        let (start, end) = runs.last();
        let before = run_ops(chunk, runs.drop_last(), base, cursor);
        let write = OpView::Write(chunk.subrange(start, end));
        if cursor_after(runs.drop_last(), base, cursor) != base + start {
            before.push(OpView::SeekTo(base + start)).push(write)
        } else {
            before.push(write)
        }
    }
}

/// A writer: the logical position of what it has decided on, the cursor of the
/// output file, and the bytes it was given but has not decided on yet.
pub struct Progress {
    pub logical: int,
    pub cursor: int,
    pub pending: Seq<u8>,
}

impl Progress {
    /// After the chunk `self.pending.take(n)`.
    pub open spec fn past(self, n: int) -> Progress {
        Progress {
            logical: self.logical + n,
            cursor: cursor_after(runs_from(self.pending.take(n), 0), self.logical, self.cursor),
            pending: self.pending.skip(n),
        }
    }

    /// The steps for the chunk `self.pending.take(n)`.
    pub open spec fn chunk_ops(self, n: int) -> Seq<OpView> {
        let chunk = self.pending.take(n);
        run_ops(chunk, runs_from(chunk, 0), self.logical, self.cursor)
    }

    /// Decide on all the whole chunks that are pending.
    pub open spec fn drained(self) -> (Seq<OpView>, Progress)
        decreases self.pending.len(),
    {
        if self.pending.len() < IO_CHUNK {
            (Seq::empty(), self)
        } else {
            let (ops, end) = self.past(IO_CHUNK as int).drained();
            (self.chunk_ops(IO_CHUNK as int) + ops, end)
        }
    }

    /// Take a piece of the source.
    pub open spec fn fed(self, piece: Seq<u8>) -> (Seq<OpView>, Progress) {
        Progress { pending: self.pending + piece, ..self }.drained()
    }

    /// The last steps: what is pending, then the exact length.
    pub open spec fn finished(self) -> Seq<OpView> {
        let n = self.pending.len() as int;
        self.chunk_ops(n).push(OpView::SetLen(self.logical + n))
    }

    /// All the steps for a source that comes in `pieces`.
    pub open spec fn all_ops(self, pieces: Seq<Seq<u8>>) -> Seq<OpView>
        decreases pieces.len(),
    {
        if pieces.len() == 0 {
            self.finished()
        } else {
            let (ops, next) = self.fed(pieces[0]);
            ops + next.all_ops(pieces.skip(1))
        }
    }
}

/// Turns a source, piece by piece, into steps on an output file.
#[derive(Debug)]
pub struct SparseWriter {
    logical: u64,
    cursor: u64,
    pending: Vec<u8>,
}

impl View for SparseWriter {
    type V = Progress;

    closed spec fn view(&self) -> Progress {
        Progress {
            logical: self.logical as int,
            cursor: self.cursor as int,
            pending: self.pending@,
        }
    }
}

impl SparseWriter {
    /// A writer for a newly created file.
    pub fn new() -> (w: SparseWriter)
        ensures
            w@ == (Progress { logical: 0, cursor: 0, pending: Seq::empty() }),
    {
        SparseWriter { logical: 0, cursor: 0, pending: Vec::new() }
    }

    /// Append the steps for the first `n` pending bytes.
    fn write_chunk(&mut self, n: usize, ops: &mut Vec<FileOp>)
        requires
            n <= old(self)@.pending.len(),
            old(self)@.logical + n <= u64::MAX,
        ensures
            op_views(final(ops)@) == op_views(old(ops)@) + old(self)@.chunk_ops(n as int),
            final(self)@ == old(self)@.past(n as int),
    {
        let chunk: Vec<u8> = slice_of(self.pending.as_slice(), 0, n);
        let ghost start = self@;
        assert(chunk@ =~= start.pending.take(n as int));
        let runs: Vec<(usize, usize)> = nonzero_runs(chunk.as_slice());
        let ghost rv = pairs(runs@);
        let ghost before = op_views(ops@);
        let mut i: usize = 0;
        proof {
            lemma_runs(chunk@, 0);
            assert(rv.take(0) =~= Seq::empty());
            assert(before + run_ops(chunk@, rv.take(0), start.logical, start.cursor) =~= before);
        }
        while i < runs.len()
            invariant
                i <= runs@.len(),
                chunk@.len() == n,
                start.logical + n <= u64::MAX,
                self.logical == start.logical,
                self.pending@ == start.pending,
                rv == pairs(runs@),
                rv == runs_from(chunk@, 0),
                self.cursor == cursor_after(rv.take(i as int), start.logical, start.cursor),
                op_views(ops@) == before + run_ops(
                    chunk@,
                    rv.take(i as int),
                    start.logical,
                    start.cursor,
                ),
                forall|k: int|
                    0 <= k < rv.len() ==> 0 <= (#[trigger] rv[k]).0 < rv[k].1 <= chunk@.len(),
            decreases runs@.len() - i,
        {
            let ghost longer = rv.take(i as int + 1);
            let ghost ops0 = op_views(ops@);
            proof {
                assert(longer.drop_last() =~= rv.take(i as int));
                assert(longer.last() == rv[i as int]);
                assert(rv[i as int] == (runs@[i as int].0 as int, runs@[i as int].1 as int));
            }
            let (from, to) = runs[i];
            let at: u64 = self.logical + from as u64;
            if self.cursor != at {
                ops.push(FileOp::SeekTo(at));
                proof {
                    assert(op_views(ops@) =~= ops0.push(OpView::SeekTo(at as int)));
                }
            }
            let ghost ops1 = op_views(ops@);
            let run: Vec<u8> = slice_of(chunk.as_slice(), from, to);
            let ghost bytes = run@;
            ops.push(FileOp::Write(run));
            self.cursor = at + (to - from) as u64;
            proof {
                assert(op_views(ops@) =~= ops1.push(OpView::Write(bytes)));
                assert(op_views(ops@) =~= before + run_ops(
                    chunk@,
                    longer,
                    start.logical,
                    start.cursor,
                ));
            }
            i = i + 1;
        }
        proof {
            assert(rv.take(runs@.len() as int) =~= rv);
        }
        let rest: Vec<u8> = slice_of(self.pending.as_slice(), n, self.pending.len());
        self.pending = rest;
        self.logical = self.logical + n as u64;
        assert(self.pending@ =~= start.pending.skip(n as int));
    }

    /// Take a piece of the source, of any size.
    pub fn push(&mut self, piece: &[u8]) -> (ops: Vec<FileOp>)
        requires
            old(self)@.logical + old(self)@.pending.len() + piece@.len() <= u64::MAX,
        ensures
            (op_views(ops@), final(self)@) == old(self)@.fed(piece@),
    {
        crate::bytes::push_bytes(&mut self.pending, piece);
        let mut ops: Vec<FileOp> = Vec::new();
        let ghost goal = self@.drained();
        assert(op_views(ops@) + self@.drained().0 =~= self@.drained().0);
        while self.pending.len() >= IO_CHUNK
            invariant
                self@.logical + self@.pending.len() <= u64::MAX,
                op_views(ops@) + self@.drained().0 == goal.0,
                self@.drained().1 == goal.1,
            decreases self@.pending.len(),
        {
            let ghost ops0 = op_views(ops@);
            let ghost now = self@;
            self.write_chunk(IO_CHUNK, &mut ops);
            proof {
                assert(ops0 + (now.chunk_ops(IO_CHUNK as int) + self@.drained().0) =~= op_views(
                    ops@,
                ) + self@.drained().0);
            }
        }
        assert(op_views(ops@) + Seq::<OpView>::empty() =~= op_views(ops@));
        ops
    }

    /// The source has ended: the last steps, and the logical size.
    pub fn finish(self) -> (r: (Vec<FileOp>, u64))
        requires
            self@.logical + self@.pending.len() <= u64::MAX,
        ensures
            op_views(r.0@) == self@.finished(),
            r.1 == self@.logical + self@.pending.len(),
    {
        let ghost start = self@;
        let mut w: SparseWriter = self;
        let mut ops: Vec<FileOp> = Vec::new();
        let n: usize = w.pending.len();
        w.write_chunk(n, &mut ops);
        let ghost ops0 = op_views(ops@);
        let size: u64 = w.logical;
        ops.push(FileOp::SetLen(size));
        proof {
            assert(ops0 =~= start.chunk_ops(n as int));
            assert(op_views(ops@) =~= ops0.push(OpView::SetLen(size as int)));
        }
        (ops, size)
    }
}

/// The runs lie in order within the buffer, the bytes outside them are zero,
/// and each holds only blocks with a byte that is not.
proof fn lemma_runs(buf: Seq<u8>, at: int)
    requires
        0 <= at <= buf.len(),
    ensures
        forall|k: int|
            0 <= k < runs_from(buf, at).len() ==> at <= (#[trigger] runs_from(buf, at)[k]).0
                < runs_from(buf, at)[k].1 <= buf.len(),
        forall|k: int, l: int|
            0 <= k < l < runs_from(buf, at).len() ==> (#[trigger] runs_from(buf, at)[k]).1 <= (
            #[trigger] runs_from(buf, at)[l]).0,
        forall|i: int|
            at <= i < buf.len() && (forall|k: int|
                0 <= k < runs_from(buf, at).len() ==> !((#[trigger] runs_from(buf, at)[k]).0 <= i
                    < runs_from(buf, at)[k].1)) ==> #[trigger] buf[i] == 0,
    decreases buf.len() - at,
{
    if at < buf.len() {
        let runs = runs_from(buf, at);
        if zero_block(buf, at) {
            lemma_runs(buf, block_end(buf, at));
            assert(runs == runs_from(buf, block_end(buf, at)));
        } else {
            let end = run_end(buf, at);
            run_ends_within(buf, at);
            lemma_runs(buf, end);
            let rest = runs_from(buf, end);
            assert(runs[0] == (at, end));
            assert forall|k: int| 0 <= k < runs.len() implies at <= (#[trigger] runs[k]).0
                < runs[k].1 <= buf.len() by {
                if k > 0 {
                    assert(runs[k] == rest[k - 1]);
                }
            }
            assert forall|k: int, l: int| 0 <= k < l < runs.len() implies (#[trigger] runs[k]).1
                <= (#[trigger] runs[l]).0 by {
                assert(runs[l] == rest[l - 1]);
                if k > 0 {
                    assert(runs[k] == rest[k - 1]);
                }
            }
            assert forall|i: int|
                at <= i < buf.len() && (forall|k: int|
                    0 <= k < runs.len() ==> !((#[trigger] runs[k]).0 <= i < runs[k].1)) implies #[trigger] buf[i]
                == 0 by {
                assert(!(runs[0].0 <= i < runs[0].1));
                assert forall|k: int| 0 <= k < rest.len() implies !((#[trigger] rest[k]).0 <= i
                    < rest[k].1) by {
                    assert(runs[k + 1] == rest[k]);
                }
            }
        }
    }
}

/// The file holds the source as far as it goes; what it lacks is zero.
pub open spec fn holds(f: FileState, src: Seq<u8>) -> bool {
    &&& f.data.len() <= src.len()
    &&& forall|i: int| 0 <= i < src.len() ==> #[trigger] f.byte(i) == src[i]
}

/// What has been carried out so far is right for what was read so far.
pub open spec fn in_step(p: Progress, f: FileState, src: Seq<u8>) -> bool {
    &&& f.pos == p.cursor
    &&& 0 <= p.logical
    &&& src.len() == p.logical + p.pending.len()
    &&& p.pending == src.skip(p.logical)
    &&& holds(f, src.take(p.logical))
}

proof fn lemma_steps_concat(f: FileState, a: Seq<OpView>, b: Seq<OpView>)
    ensures
        f.steps(a + b) == f.steps(a).steps(b),
    decreases b.len(),
{
    if b.len() == 0 {
        assert(a + b =~= a);
    } else {
        assert((a + b).drop_last() =~= a + b.drop_last());
        lemma_steps_concat(f, a, b.drop_last());
    }
}

/// Writing the first `k` runs of a chunk puts the chunk's bytes up to the end
/// of the last of them in place.
proof fn lemma_run_ops(f: FileState, done: Seq<u8>, chunk: Seq<u8>, k: nat, cursor: int)
    requires
        holds(f, done),
        f.pos == cursor,
        k <= runs_from(chunk, 0).len(),
    ensures
        ({
            let runs = runs_from(chunk, 0).take(k as int);
            let g = f.steps(run_ops(chunk, runs, done.len() as int, cursor));
            let end = if k == 0 {
                0
            } else {
                runs.last().1
            };
            &&& g.pos == cursor_after(runs, done.len() as int, cursor)
            &&& g.data.len() <= done.len() + end
            &&& forall|i: int| 0 <= i < done.len() ==> #[trigger] g.byte(i) == done[i]
            &&& forall|i: int|
                0 <= i < end ==> #[trigger] g.byte(done.len() + i) == chunk[i]
        }),
    decreases k,
{
    let all = runs_from(chunk, 0);
    let runs = all.take(k as int);
    let base = done.len() as int;
    lemma_runs(chunk, 0);
    if k == 0 {
        assert(runs =~= Seq::empty());
    } else {
        let prev = (k - 1) as nat;
        lemma_run_ops(f, done, chunk, prev, cursor);
        let fewer = all.take(prev as int);
        assert(runs.drop_last() =~= fewer);
        let (start, end) = runs.last();
        assert(runs.last() == all[prev as int]);
        let ops = run_ops(chunk, fewer, base, cursor);
        let g = f.steps(ops);
        let cur = cursor_after(fewer, base, cursor);
        let prev_end = if prev == 0 {
            0
        } else {
            fewer.last().1
        };
        if prev > 0 {
            assert(fewer.last() == all[prev - 1]);
        }
        let write = OpView::Write(chunk.subrange(start, end));
        let g1 = if cur != base + start {
            g.step(OpView::SeekTo(base + start))
        } else {
            g
        };
        let all_ops = run_ops(chunk, runs, base, cursor);
        if cur != base + start {
            assert(all_ops == ops.push(OpView::SeekTo(base + start)).push(write));
            assert(all_ops.drop_last() =~= ops.push(OpView::SeekTo(base + start)));
            assert(all_ops.drop_last().drop_last() =~= ops);
            assert(f.steps(all_ops.drop_last()) == g1);
        } else {
            assert(all_ops == ops.push(write));
            assert(all_ops.drop_last() =~= ops);
        }
        let h = g1.step(write);
        assert(f.steps(all_ops) == h);
        assert forall|i: int| 0 <= i < done.len() implies #[trigger] h.byte(i) == done[i] by {
            assert(g.byte(i) == done[i]);
        }
        assert forall|i: int| 0 <= i < end implies #[trigger] h.byte(base + i) == chunk[i] by {
            if i < prev_end {
                assert(g.byte(base + i) == chunk[i]);
            } else if i < start {
                assert(chunk[i] == 0) by {
                    assert forall|m: int| 0 <= m < all.len() implies !((#[trigger] all[m]).0 <= i
                        < all[m].1) by {
                        if m < prev {
                            if m < prev - 1 {
                                assert(all[m].1 <= all[prev - 1].0);
                            }
                        } else if m > prev {
                            assert(all[prev as int].1 <= all[m].0);
                        }
                    }
                }
            } else {
                assert(chunk.subrange(start, end)[i - start] == chunk[i]);
            }
        }
    }
}

proof fn lemma_chunk(p: Progress, f: FileState, src: Seq<u8>, n: int)
    requires
        in_step(p, f, src),
        0 <= n <= p.pending.len(),
    ensures
        in_step(p.past(n), f.steps(p.chunk_ops(n)), src),
{
    let chunk = p.pending.take(n);
    let done = src.take(p.logical);
    let runs = runs_from(chunk, 0);
    lemma_run_ops(f, done, chunk, runs.len(), p.cursor);
    assert(runs.take(runs.len() as int) =~= runs);
    let g = f.steps(p.chunk_ops(n));
    let next = src.take(p.logical + n);
    lemma_runs(chunk, 0);
    let end = if runs.len() == 0 {
        0
    } else {
        runs.last().1
    };
    assert forall|i: int| 0 <= i < next.len() implies #[trigger] g.byte(i) == next[i] by {
        if i < p.logical {
            assert(done[i] == src[i]);
        } else {
            let j = i - p.logical;
            assert(chunk[j] == src[i]);
            if j < end {
                assert(g.byte(done.len() + j) == chunk[j]);
            } else {
                assert(chunk[j] == 0) by {
                    assert forall|m: int| 0 <= m < runs.len() implies !((#[trigger] runs[m]).0 <= j
                        < runs[m].1) by {
                        if m < runs.len() - 1 {
                            assert(runs[m].1 <= runs[runs.len() - 1].0);
                        }
                    }
                }
            }
        }
    }
    assert(p.pending.skip(n) =~= src.skip(p.logical + n));
}

proof fn lemma_drained(p: Progress, f: FileState, src: Seq<u8>)
    requires
        in_step(p, f, src),
    ensures
        in_step(p.drained().1, f.steps(p.drained().0), src),
    decreases p.pending.len(),
{
    if p.pending.len() >= IO_CHUNK {
        let n = IO_CHUNK as int;
        lemma_chunk(p, f, src, n);
        lemma_drained(p.past(n), f.steps(p.chunk_ops(n)), src);
        lemma_steps_concat(f, p.chunk_ops(n), p.past(n).drained().0);
    }
}

proof fn lemma_all_ops(p: Progress, f: FileState, src: Seq<u8>, pieces: Seq<Seq<u8>>)
    requires
        in_step(p, f, src),
    ensures
        f.steps(p.all_ops(pieces)).data == src + pieces.flatten(),
    decreases pieces.len(),
{
    if pieces.len() == 0 {
        let n = p.pending.len() as int;
        lemma_chunk(p, f, src, n);
        let ops = p.chunk_ops(n);
        let g = f.steps(ops);
        let last = OpView::SetLen(p.logical + n);
        assert(p.all_ops(pieces) == ops.push(last));
        assert(ops.push(last).drop_last() =~= ops);
        assert(src.take(p.logical + n) =~= src);
        assert(pieces.flatten() =~= Seq::empty());
        assert(f.steps(p.all_ops(pieces)).data =~= src + pieces.flatten());
    } else {
        let piece = pieces[0];
        let q = Progress { pending: p.pending + piece, ..p };
        let longer = src + piece;
        assert(longer.take(p.logical) =~= src.take(p.logical));
        assert(longer.skip(p.logical) =~= p.pending + piece);
        lemma_drained(q, f, longer);
        let (ops, next) = p.fed(piece);
        lemma_all_ops(next, f.steps(ops), longer, pieces.skip(1));
        lemma_steps_concat(f, ops, next.all_ops(pieces.skip(1)));
        assert(pieces.drop_first() =~= pieces.skip(1));
        assert(src + pieces.flatten() =~= longer + pieces.skip(1).flatten());
    }
}

/// The output is byte-identical to a dense copy: however the source is cut
/// into pieces, carrying the steps out on a new file leaves exactly the bytes
/// of the source in it.
pub proof fn sparse_copy_is_dense_copy(pieces: Seq<Seq<u8>>)
    ensures
        new_file().steps(
            (Progress { logical: 0, cursor: 0, pending: Seq::empty() }).all_ops(pieces),
        ).data == pieces.flatten(),
{
    let p = Progress { logical: 0, cursor: 0, pending: Seq::empty() };
    let src = Seq::<u8>::empty();
    assert(p.pending =~= src.skip(0));
    lemma_all_ops(p, new_file(), src, pieces);
    assert(src + pieces.flatten() =~= pieces.flatten());
}

/// No block of zeros is ever written: every run consists of whole blocks of
/// the chunk that hold a byte other than zero.
pub proof fn zero_blocks_are_never_written(buf: Seq<u8>, at: int)
    requires
        0 <= at < buf.len(),
        at % (BLOCK as int) == 0,
        zero_block(buf, at),
    ensures
        forall|k: int|
            0 <= k < runs_from(buf, 0).len() ==> (#[trigger] runs_from(buf, 0)[k]).1 <= at
                || block_end(buf, at) <= runs_from(buf, 0)[k].0,
{
    lemma_zero_block_skipped(buf, 0, at);
}

proof fn lemma_run_misses_zero_block(buf: Seq<u8>, from: int, at: int)
    requires
        0 <= from <= at < buf.len(),
        from % (BLOCK as int) == 0,
        at % (BLOCK as int) == 0,
        zero_block(buf, at),
    ensures
        run_end(buf, from) <= at,
        run_end(buf, from) % (BLOCK as int) == 0,
    decreases buf.len() - from,
{
    if from < at && !zero_block(buf, from) {
        lemma_run_misses_zero_block(buf, from + BLOCK, at);
    }
}

proof fn lemma_zero_block_skipped(buf: Seq<u8>, from: int, at: int)
    requires
        0 <= from <= buf.len(),
        0 <= at < buf.len(),
        from % (BLOCK as int) == 0 || from == buf.len(),
        at % (BLOCK as int) == 0,
        zero_block(buf, at),
    ensures
        forall|k: int|
            0 <= k < runs_from(buf, from).len() ==> (#[trigger] runs_from(buf, from)[k]).1 <= at
                || block_end(buf, at) <= runs_from(buf, from)[k].0,
    decreases buf.len() - from,
{
    let runs = runs_from(buf, from);
    lemma_runs(buf, from);
    if from < buf.len() {
        if from > at {
            assert(from >= at + BLOCK);
        } else if zero_block(buf, from) {
            lemma_zero_block_skipped(buf, block_end(buf, from), at);
            assert(runs == runs_from(buf, block_end(buf, from)));
        } else {
            let end = run_end(buf, from);
            run_ends_within(buf, from);
            lemma_run_misses_zero_block(buf, from, at);
            lemma_zero_block_skipped(buf, end, at);
            let rest = runs_from(buf, end);
            assert forall|k: int| 0 <= k < runs.len() implies (#[trigger] runs[k]).1 <= at
                || block_end(buf, at) <= runs[k].0 by {
                if k > 0 {
                    assert(runs[k] == rest[k - 1]);
                } else {
                    assert(runs[k] == (from, end));
                }
            }
        }
    }
}

/// Why an image is not written.
#[derive(Debug)]
pub enum SparseError {
    NoDestination,
    /// Copying a file onto itself would empty it first.
    OntoItself(String),
}

impl SparseError {
    pub fn message(&self) -> (s: String)
        ensures
            s@ == (match *self {
                SparseError::NoDestination => "no destination to write"@,
                SparseError::OntoItself(p) => "refusing to copy "@ + p@ + " onto itself"@,
            }),
    {
        match self {
            SparseError::NoDestination => crate::text::owned("no destination to write"),
            SparseError::OntoItself(p) => crate::text::cat3(
                "refusing to copy ",
                p.as_str(),
                " onto itself",
            ),
        }
    }
}

pub open spec fn piece_views(v: Seq<Vec<u8>>) -> Seq<Seq<u8>> {
    v.map_values(|p: Vec<u8>| p@)
}

/// How many bytes the pieces have.
pub open spec fn total_len(pieces: Seq<Seq<u8>>) -> nat
    decreases pieces.len(),
{
    if pieces.len() == 0 {
        0
    } else {
        pieces[0].len() + total_len(pieces.skip(1))
    }
}

/// The beginning of a file.
pub open spec fn untouched() -> Progress {
    Progress { logical: 0, cursor: 0, pending: Seq::empty() }
}

proof fn lemma_fed_len(p: Progress, piece: Seq<u8>)
    requires
        0 <= p.logical,
    ensures
        ({
            let next = p.fed(piece).1;
            0 <= next.logical && next.logical + next.pending.len() == p.logical + p.pending.len()
                + piece.len()
        }),
{
    lemma_drained_len(Progress { pending: p.pending + piece, ..p });
}

proof fn lemma_drained_len(p: Progress)
    requires
        0 <= p.logical,
    ensures
        ({
            let next = p.drained().1;
            0 <= next.logical && next.logical + next.pending.len() == p.logical + p.pending.len()
        }),
    decreases p.pending.len(),
{
    if p.pending.len() >= IO_CHUNK {
        lemma_drained_len(p.past(IO_CHUNK as int));
    }
}

/// The steps that write a source, given piece by piece, to a new file, and its
/// size.
pub fn write_sparse(pieces: &Vec<Vec<u8>>) -> (r: (Vec<FileOp>, u64))
    requires
        total_len(piece_views(pieces@)) <= u64::MAX,
    ensures
        op_views(r.0@) == untouched().all_ops(piece_views(pieces@)),
        r.1 == total_len(piece_views(pieces@)),
{
    let ghost all = piece_views(pieces@);
    let mut w: SparseWriter = SparseWriter::new();
    let mut ops: Vec<FileOp> = Vec::new();
    let mut i: usize = 0;
    proof {
        assert(all.skip(0) =~= all);
        assert(op_views(ops@) + w@.all_ops(all.skip(0)) =~= untouched().all_ops(all));
    }
    while i < pieces.len()
        invariant
            i <= pieces@.len(),
            all == piece_views(pieces@),
            total_len(all) <= u64::MAX,
            0 <= w@.logical,
            w@.logical + w@.pending.len() + total_len(all.skip(i as int)) == total_len(all),
            op_views(ops@) + w@.all_ops(all.skip(i as int)) == untouched().all_ops(all),
        decreases pieces@.len() - i,
    {
        let ghost rest = all.skip(i as int);
        let ghost now = w@;
        let ghost before = op_views(ops@);
        proof {
            assert(rest[0] == pieces@[i as int]@);
            assert(rest.skip(1) =~= all.skip(i as int + 1));
            lemma_fed_len(now, rest[0]);
        }
        let mut more: Vec<FileOp> = w.push(pieces[i].as_slice());
        let ghost mv = op_views(more@);
        ops.append(&mut more);
        proof {
            assert(op_views(ops@) =~= before + mv);
            assert(before + (mv + w@.all_ops(rest.skip(1))) =~= op_views(ops@) + w@.all_ops(
                rest.skip(1),
            ));
        }
        i = i + 1;
    }
    proof {
        assert(all.skip(pieces@.len() as int) =~= Seq::empty());
    }
    let ghost before = op_views(ops@);
    let (mut last, size): (Vec<FileOp>, u64) = w.finish();
    let ghost lv = op_views(last@);
    ops.append(&mut last);
    assert(op_views(ops@) =~= before + lv);
    (ops, size)
}

/// The steps that fill every one of several new files from one pass over the
/// source.
pub fn write_sparse_many(pieces: &Vec<Vec<u8>>, destinations: usize) -> (r: Result<
    (Vec<FileOp>, u64),
    SparseError,
>)
    requires
        total_len(piece_views(pieces@)) <= u64::MAX,
    ensures
        match r {
            Ok((ops, size)) => destinations > 0 && op_views(ops@) == untouched().all_ops(
                piece_views(pieces@),
            ) && size == total_len(piece_views(pieces@)),
            Err(e) => destinations == 0 && e is NoDestination,
        },
{
    if destinations == 0 {
        return Err(SparseError::NoDestination);
    }
    Ok(write_sparse(pieces))
}

/// Whether a file may be copied to another path.
pub fn copy_sparse(from: &str, same_file: bool) -> (r: Result<(), SparseError>)
    ensures
        match r {
            Ok(()) => !same_file,
            Err(SparseError::OntoItself(p)) => same_file && p@ == from@,
            Err(_) => false,
        },
{
    if same_file {
        Err(SparseError::OntoItself(crate::text::owned(from)))
    } else {
        Ok(())
    }
}

/// How many bytes a file takes on the disk, which counts in blocks of 512;
/// none where that is not known.
pub fn physical_bytes(blocks: Option<u64>) -> (r: Option<u64>)
    ensures
        r == (match blocks {
            Some(n) => if n * 512 <= u64::MAX {
                Some((n * 512) as u64)
            } else {
                None
            },
            None => None,
        }),
{
    match blocks {
        Some(n) => if n <= 0xffff_ffff_ffff_ffff / 512 {
            Some(n * 512)
        } else {
            None
        },
        None => None,
    }
}

} // verus!
