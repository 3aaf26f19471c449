//! The circular sample store.
//!
//! A [`RingBuffer`] is a fixed allocation operated at a configurable logical
//! length, with independent wrapping read and write cursors. The input side
//! of the engine uses it as a rolling history recorder; the output side as a
//! fixed loop-content store. All index arithmetic is modular against the
//! logical length and no operation fails: out-of-range lengths are ruled out
//! by the callers' contracts.
use vstd::arithmetic::div_mod::{
    lemma_add_mod_noop, lemma_mod_add_multiples_vanish, lemma_mod_division_less_than_divisor,
    lemma_mod_self_0, lemma_mod_sub_multiples_vanish, lemma_mod_twice, lemma_small_mod,
};
use vstd::prelude::*;

verus! {

/// A fixed-capacity circular sample store with independent read and write
/// cursors, both wrapping modulo the current logical length.
pub struct RingBuffer {
    data: Vec<i64>,
    len: usize,
    read_cursor: usize,
    write_cursor: usize,
}

/// The samples that `n` successive circular reads starting at position
/// `start` of contents `c` return.
pub open spec fn read_seq(c: Seq<i64>, start: int, n: nat) -> Seq<i64>
    recommends
        c.len() >= 1,
{
    Seq::new(n, |i: int| c[(start + i) % (c.len() as int)])
}

/// The contents after the samples `xs` are written one by one, circularly,
/// starting at position `start` of contents `c`.
pub open spec fn written(c: Seq<i64>, start: int, xs: Seq<i64>) -> Seq<i64>
    recommends
        c.len() >= 1,
        0 <= start < c.len(),
    decreases xs.len(),
{
    if xs.len() == 0 {
        c
    } else {
        written(c, start, xs.drop_last()).update(
            (start + xs.len() - 1) % (c.len() as int),
            xs.last(),
        )
    }
}

/// One smoothing step: the sample at `pos` is replaced by the equal-weight
/// average of itself and its circular predecessor.
pub open spec fn blend_at(c: Seq<i64>, pos: int) -> Seq<i64>
    recommends
        c.len() >= 1,
        0 <= pos < c.len(),
{
    c.update(
        pos,
        crate::blend::sample_avg(
            c[(pos + c.len() - 1) % (c.len() as int)] as int,
            c[pos] as int,
        ) as i64,
    )
}

/// The contents after `k` successive smoothing steps starting at position
/// `start`: step `j` blends position `(start + j) mod len` and sees the
/// result of the steps before it, so the seam softening propagates forward.
pub open spec fn smoothed(c: Seq<i64>, start: int, k: nat) -> Seq<i64>
    recommends
        c.len() >= 1,
    decreases k,
{
    if k == 0 {
        c
    } else {
        blend_at(smoothed(c, start, (k - 1) as nat), (start + k - 1) % (c.len() as int))
    }
}

/// Stepping an in-range cursor forward by one wraps at `len`.
proof fn lemma_step_mod(x: int, len: int)
    requires
        len >= 1,
        0 <= x,
    ensures
        (x + 1) % len == if x % len + 1 == len {
            0int
        } else {
            x % len + 1
        },
{
    lemma_mod_twice(x, len);
    if len >= 2 {
        lemma_small_mod(1, len as nat);
    } else {
        lemma_mod_self_0(1);
    }
    broadcast use lemma_add_mod_noop;

    lemma_mod_division_less_than_divisor(x, len);
    if x % len + 1 == len {
        lemma_mod_self_0(len);
        assert((x % len + 1int % len) % len == (x + 1) % len);
    } else {
        if len == 1 {
            lemma_small_mod(0, 1);
        } else {
            lemma_small_mod((x % len + 1) as nat, len as nat);
            assert((x % len + 1int % len) % len == (x + 1) % len);
        }
    }
}

/// The circular predecessor of an in-range position.
proof fn lemma_pred_mod(cur: int, len: int)
    requires
        len >= 1,
        0 <= cur < len,
    ensures
        (cur + len - 1) % len == if cur == 0 {
            len - 1
        } else {
            cur - 1
        },
{
    if cur == 0 {
        lemma_small_mod((len - 1) as nat, len as nat);
    } else {
        lemma_mod_add_multiples_vanish(cur - 1, len);
        lemma_small_mod((cur - 1) as nat, len as nat);
    }
}

/// Shifting before or after reducing makes no difference.
pub(crate) proof fn lemma_mod_shift(a: int, b: int, m: int)
    requires
        m >= 1,
        0 <= a,
        0 <= b,
    ensures
        (a % m + b) % m == (a + b) % m,
{
    lemma_add_mod_noop(a, b, m);
    lemma_add_mod_noop(a % m, b, m);
    lemma_mod_twice(a, m);
}

impl RingBuffer {
    /// The whole backing store, slots beyond the logical length included.
    pub closed spec fn storage(self) -> Seq<i64> {
        self.data@
    }

    /// The fixed allocation length.
    pub open spec fn capacity(self) -> int {
        self.storage().len() as int
    }

    /// The current logical length.
    pub closed spec fn length(self) -> int {
        self.len as int
    }

    /// The logically live samples: the first `length()` slots of the store.
    pub open spec fn contents(self) -> Seq<i64> {
        self.storage().subrange(0, self.length())
    }

    /// Read cursor position.
    pub closed spec fn rpos(self) -> int {
        self.read_cursor as int
    }

    /// Write cursor position.
    pub closed spec fn wpos(self) -> int {
        self.write_cursor as int
    }

    /// Both cursors wrap modulo the logical length; an empty buffer parks
    /// them at zero.
    pub open spec fn wf(self) -> bool {
        &&& 0 <= self.length() <= self.capacity()
        &&& if self.length() == 0 {
            self.rpos() == 0 && self.wpos() == 0
        } else {
            0 <= self.rpos() < self.length() && 0 <= self.wpos() < self.length()
        }
    }

    /// A ring of fixed capacity, initially empty: the logical length is set
    /// by the first `resize`.
    pub fn new(capacity: usize) -> (rb: RingBuffer)
        ensures
            rb.wf(),
            rb.capacity() == capacity,
            rb.length() == 0,
            forall|i: int| 0 <= i < capacity ==> rb.storage()[i] == 0i64,
    {
        RingBuffer { data: vec![0i64; capacity], len: 0, read_cursor: 0, write_cursor: 0 }
    }

    /// Stores `sample` at the write cursor and advances the cursor one step,
    /// wrapping to 0 at the logical length.
    pub fn write(&mut self, sample: i64)
        requires
            old(self).wf(),
            old(self).length() >= 1,
        ensures
            final(self).wf(),
            final(self).length() == old(self).length(),
            final(self).capacity() == old(self).capacity(),
            final(self).storage() == old(self).storage().update(old(self).wpos(), sample),
            final(self).contents() == old(self).contents().update(old(self).wpos(), sample),
            final(self).rpos() == old(self).rpos(),
            final(self).wpos() == (old(self).wpos() + 1) % old(self).length(),
    {
        self.data[self.write_cursor] = sample;
        self.write_cursor = self.write_cursor + 1;
        if self.write_cursor >= self.len {
            self.write_cursor = 0;
        }
        proof {
            lemma_step_mod(old(self).wpos(), old(self).length());
            lemma_small_mod(old(self).wpos() as nat, old(self).length() as nat);
            assert(self.contents() =~= old(self).contents().update(old(self).wpos(), sample));
        }
    }

    /// Returns the sample at the read cursor and advances the cursor one
    /// step with the same wraparound rule; repeated calls traverse the
    /// stored content in circular order indefinitely.
    pub fn read(&mut self) -> (sample: i64)
        requires
            old(self).wf(),
            old(self).length() >= 1,
        ensures
            final(self).wf(),
            final(self).length() == old(self).length(),
            final(self).storage() == old(self).storage(),
            final(self).wpos() == old(self).wpos(),
            final(self).rpos() == (old(self).rpos() + 1) % old(self).length(),
            sample == old(self).contents()[old(self).rpos()],
    {
        let result = self.data[self.read_cursor];
        self.read_cursor = self.read_cursor + 1;
        if self.read_cursor >= self.len {
            self.read_cursor = 0;
        }
        proof {
            lemma_step_mod(old(self).rpos(), old(self).length());
            lemma_small_mod(old(self).rpos() as nat, old(self).length() as nat);
        }
        result
    }

    /// Sets the logical length, fills any newly exposed slots with `fill`,
    /// and resets both cursors to 0. The only operation that changes the
    /// logical length; the allocation itself never moves.
    pub fn resize(&mut self, new_len: usize, fill: i64)
        requires
            old(self).wf(),
            new_len <= old(self).capacity(),
        ensures
            final(self).wf(),
            final(self).capacity() == old(self).capacity(),
            final(self).length() == new_len,
            final(self).rpos() == 0,
            final(self).wpos() == 0,
            forall|i: int|
                0 <= i < old(self).capacity() ==> final(self).storage()[i] == (if old(
                    self,
                ).length() <= i < new_len {
                    fill
                } else {
                    old(self).storage()[i]
                }),
    {
        if new_len > self.len {
            let mut i: usize = self.len;
            while i < new_len
                invariant
                    old(self).length() <= i <= new_len,
                    new_len <= old(self).capacity(),
                    self.len == old(self).len,
                    self.read_cursor == old(self).read_cursor,
                    self.write_cursor == old(self).write_cursor,
                    self.storage().len() == old(self).storage().len(),
                    forall|j: int|
                        0 <= j < old(self).capacity() ==> self.storage()[j] == (if old(
                            self,
                        ).length() <= j < i {
                            fill
                        } else {
                            old(self).storage()[j]
                        }),
                decreases new_len - i,
            {
                self.data[i] = fill;
                i = i + 1;
            }
        }
        self.len = new_len;
        self.read_cursor = 0;
        self.write_cursor = 0;
    }

    /// Repositions the read cursor `window_size` samples behind the write
    /// cursor, modulo the logical length, without touching the write
    /// cursor: subsequent reads replay the most recently written
    /// `window_size` samples.
    pub fn open_window(&mut self, window_size: usize)
        requires
            old(self).wf(),
            old(self).length() >= 1,
            window_size <= old(self).length(),
        ensures
            final(self).wf(),
            final(self).length() == old(self).length(),
            final(self).capacity() == old(self).capacity(),
            final(self).storage() == old(self).storage(),
            final(self).wpos() == old(self).wpos(),
            final(self).rpos() == (old(self).wpos() + old(self).length() - window_size) % old(
                self,
            ).length(),
    {
        let end = self.write_cursor;
        let len = self.len;
        let start = if window_size <= end {
            end - window_size
        } else {
            end + (len - window_size)
        };
        proof {
            if window_size <= end {
                lemma_mod_add_multiples_vanish(end as int - window_size as int, len as int);
                lemma_small_mod((end - window_size) as nat, len as nat);
            } else {
                lemma_small_mod((end + (len - window_size)) as nat, len as nat);
            }
        }
        self.read_cursor = start;
    }

    /// Blends `depth` samples (capped at the logical length) starting at the
    /// read cursor, each with its immediate circular predecessor, to remove
    /// the waveform discontinuity at the loop seam. Cursors are untouched.
    pub fn smooth(&mut self, depth: usize)
        requires
            old(self).wf(),
            old(self).length() >= 1,
        ensures
            final(self).wf(),
            final(self).length() == old(self).length(),
            final(self).capacity() == old(self).capacity(),
            final(self).rpos() == old(self).rpos(),
            final(self).wpos() == old(self).wpos(),
            final(self).contents() == smoothed(
                old(self).contents(),
                old(self).rpos(),
                (if depth <= old(self).length() {
                    depth as int
                } else {
                    old(self).length()
                }) as nat,
            ),
            forall|i: int|
                old(self).length() <= i < old(self).capacity() ==> final(self).storage()[i] == old(
                    self,
                ).storage()[i],
    {
        let d: usize = if depth > self.len {
            self.len
        } else {
            depth
        };
        let start: usize = self.read_cursor;
        let mut cur: usize = start;
        let mut j: usize = 0;
        proof {
            assert(self.contents() =~= smoothed(old(self).contents(), start as int, 0));
            lemma_small_mod(start as nat, self.len as nat);
        }
        while j < d
            invariant
                j <= d,
                d <= self.len,
                self.len == old(self).len,
                self.len >= 1,
                self.read_cursor == old(self).read_cursor,
                self.write_cursor == old(self).write_cursor,
                start == old(self).read_cursor,
                start < self.len,
                self.storage().len() == old(self).storage().len(),
                self.len <= self.storage().len(),
                cur < self.len,
                cur as int == (start + j) % (self.len as int),
                self.contents() == smoothed(old(self).contents(), start as int, j as nat),
                forall|i: int|
                    self.len <= i < self.storage().len() ==> self.storage()[i] == old(
                        self,
                    ).storage()[i],
            decreases d - j,
        {
            let ghost pre = self.contents();
            let prev: usize = if cur == 0 {
                self.len - 1
            } else {
                cur - 1
            };
            let a = self.data[prev];
            let b = self.data[cur];
            let v = crate::blend::avg_samples(a, b);
            self.data[cur] = v;
            proof {
                let len = self.len as int;
                lemma_pred_mod(cur as int, len);
                assert(pre[prev as int] == a && pre[cur as int] == b);
                assert(v as int == crate::blend::sample_avg(a as int, b as int));
                assert(self.contents() =~= blend_at(pre, cur as int));
                assert(smoothed(old(self).contents(), start as int, (j + 1) as nat) == blend_at(
                    smoothed(old(self).contents(), start as int, j as nat),
                    (start + j) % len,
                ));
                lemma_step_mod(start + j, len);
            }
            cur = if cur + 1 == self.len {
                0
            } else {
                cur + 1
            };
            j = j + 1;
        }
    }

    /// Writes every sample of `samples`, in order.
    pub fn write_block(&mut self, samples: &Vec<i64>)
        requires
            old(self).wf(),
            old(self).length() >= 1,
        ensures
            final(self).wf(),
            final(self).length() == old(self).length(),
            final(self).capacity() == old(self).capacity(),
            final(self).rpos() == old(self).rpos(),
            final(self).contents() == written(
                old(self).contents(),
                old(self).wpos(),
                samples@,
            ),
            final(self).wpos() == (old(self).wpos() + samples@.len()) % old(self).length(),
            forall|i: int|
                old(self).length() <= i < old(self).capacity() ==> final(self).storage()[i] == old(
                    self,
                ).storage()[i],
    {
        let mut i: usize = 0;
        proof {
            assert(samples@.subrange(0, 0) =~= Seq::<i64>::empty());
            lemma_small_mod(old(self).wpos() as nat, old(self).length() as nat);
        }
        while i < samples.len()
            invariant
                i <= samples.len(),
                self.len == old(self).len,
                self.len >= 1,
                self.wf(),
                self.read_cursor == old(self).read_cursor,
                self.storage().len() == old(self).storage().len(),
                self.contents() == written(
                    old(self).contents(),
                    old(self).wpos(),
                    samples@.subrange(0, i as int),
                ),
                self.wpos() == (old(self).wpos() + i) % (self.len as int),
                forall|j: int|
                    self.len <= j < self.storage().len() ==> self.storage()[j] == old(
                        self,
                    ).storage()[j],
            decreases samples.len() - i,
        {
            let ghost pre = self.contents();
            self.write(samples[i]);
            proof {
                let len = self.len as int;
                let part = samples@.subrange(0, (i + 1) as int);
                assert(part.drop_last() =~= samples@.subrange(0, i as int));
                assert(part.last() == samples@[i as int]);
                assert(self.contents() == written(
                    old(self).contents(),
                    old(self).wpos(),
                    part,
                ));
                lemma_mod_shift(old(self).wpos() + i, 1, len);
            }
            i = i + 1;
        }
        proof {
            assert(samples@.subrange(0, samples@.len() as int) =~= samples@);
        }
    }

    /// Performs `count` circular reads and returns the samples in order.
    pub fn read_block(&mut self, count: usize) -> (samples: Vec<i64>)
        requires
            old(self).wf(),
            old(self).length() >= 1,
        ensures
            final(self).wf(),
            final(self).length() == old(self).length(),
            final(self).capacity() == old(self).capacity(),
            final(self).storage() == old(self).storage(),
            final(self).wpos() == old(self).wpos(),
            final(self).rpos() == (old(self).rpos() + count) % old(self).length(),
            samples@ == read_seq(old(self).contents(), old(self).rpos(), count as nat),
    {
        let mut samples: Vec<i64> = Vec::new();
        let mut i: usize = 0;
        proof {
            lemma_small_mod(old(self).rpos() as nat, old(self).length() as nat);
        }
        while i < count
            invariant
                i <= count,
                self.len == old(self).len,
                self.len >= 1,
                self.wf(),
                self.write_cursor == old(self).write_cursor,
                self.storage() == old(self).storage(),
                self.rpos() == (old(self).rpos() + i) % (self.len as int),
                samples@.len() == i,
                samples@ == read_seq(old(self).contents(), old(self).rpos(), i as nat),
            decreases count - i,
        {
            let s = self.read();
            samples.push(s);
            proof {
                let len = self.len as int;
                lemma_mod_shift(old(self).rpos() + i, 1, len);
                assert(samples@ =~= read_seq(
                    old(self).contents(),
                    old(self).rpos(),
                    (i + 1) as nat,
                ));
            }
            i = i + 1;
        }
        samples
    }
}

/// Writing preserves the logical length.
proof fn lemma_written_len(c: Seq<i64>, start: int, xs: Seq<i64>)
    requires
        c.len() >= 1,
    ensures
        written(c, start, xs).len() == c.len(),
    decreases xs.len(),
{
    if xs.len() > 0 {
        lemma_written_len(c, start, xs.drop_last());
    }
}

/// Positions less than a full wrap apart land on distinct slots.
proof fn lemma_mod_distinct(a: int, b: int, m: int)
    requires
        m >= 1,
        0 <= a < b,
        b - a < m,
    ensures
        a % m != b % m,
{
    let d = b - a;
    lemma_add_mod_noop(a, d, m);
    lemma_small_mod(d as nat, m as nat);
    lemma_mod_division_less_than_divisor(a, m);
    let r = a % m;
    if r + d < m {
        lemma_small_mod((r + d) as nat, m as nat);
    } else {
        lemma_mod_sub_multiples_vanish(r + d, m);
        lemma_small_mod((r + d - m) as nat, m as nat);
    }
}

/// Where each write lands: the sample written at step `m` is still at
/// position `(start + m) mod len` afterward, as long as fewer than a full
/// wrap of later writes followed it.
proof fn lemma_written_index(c: Seq<i64>, start: int, xs: Seq<i64>, m: int)
    requires
        c.len() >= 1,
        0 <= start,
        0 <= m < xs.len(),
        xs.len() - c.len() <= m,
    ensures
        written(c, start, xs)[(start + m) % (c.len() as int)] == xs[m],
    decreases xs.len(),
{
    let len = c.len() as int;
    let k = xs.len() as int;
    lemma_written_len(c, start, xs.drop_last());
    lemma_mod_division_less_than_divisor(start + k - 1, len);
    if m < k - 1 {
        lemma_written_index(c, start, xs.drop_last(), m);
        lemma_mod_division_less_than_divisor(start + m, len);
        lemma_mod_distinct(start + m, start + k - 1, len);
    }
}

/// Round trip: writing a block of at most one buffer length onto any
/// starting contents and reading the same number of samples back from the
/// first written position returns exactly the written block, in order.
pub proof fn lemma_write_read_roundtrip(c: Seq<i64>, xs: Seq<i64>)
    requires
        c.len() >= 1,
        xs.len() <= c.len(),
    ensures
        read_seq(written(c, 0, xs), 0, xs.len()) == xs,
{
    let len = c.len() as int;
    let w = written(c, 0, xs);
    lemma_written_len(c, 0, xs);
    assert forall|i: int| 0 <= i < xs.len() implies read_seq(w, 0, xs.len())[i] == xs[i] by {
        lemma_small_mod(i as nat, len as nat);
        lemma_written_index(c, 0, xs, i);
    }
    assert(read_seq(w, 0, xs.len()) =~= xs);
}

/// Loop property: once a full buffer of samples has been written, further
/// reads cycle through that same sequence indefinitely — read `j` returns
/// the sample written at step `j mod len`.
pub proof fn lemma_reads_cycle(c: Seq<i64>, xs: Seq<i64>, n: nat)
    requires
        c.len() >= 1,
        xs.len() == c.len(),
    ensures
        forall|j: int|
            0 <= j < n ==> read_seq(written(c, 0, xs), 0, n)[j] == xs[j % (xs.len() as int)],
{
    let len = c.len() as int;
    let w = written(c, 0, xs);
    lemma_written_len(c, 0, xs);
    assert forall|j: int| 0 <= j < n implies read_seq(w, 0, n)[j] == xs[j % (xs.len() as int)] by {
        lemma_mod_division_less_than_divisor(j, len);
        let m = j % len;
        lemma_written_index(c, 0, xs, m);
        lemma_mod_twice(j, len);
        lemma_small_mod(m as nat, len as nat);
    }
}

/// Window property: after a block with at least `ws` samples has been
/// written, positioning the read cursor `ws` behind the final write cursor
/// (what `open_window` does) makes the next `ws` reads reproduce exactly
/// the last `ws` samples written, in order.
pub proof fn lemma_open_window_replays_recent(c: Seq<i64>, w0: int, xs: Seq<i64>, ws: nat)
    requires
        c.len() >= 1,
        0 <= w0 < c.len(),
        ws <= xs.len(),
        ws <= c.len(),
    ensures
        ({
            let len = c.len() as int;
            let wend = (w0 + xs.len()) % len;
            read_seq(written(c, w0, xs), (wend + len - ws) % len, ws) == xs.subrange(
                xs.len() - ws as int,
                xs.len() as int,
            )
        }),
{
    let len = c.len() as int;
    let k = xs.len() as int;
    let w = written(c, w0, xs);
    lemma_written_len(c, w0, xs);
    let wend = (w0 + k) % len;
    let start = (wend + len - ws) % len;
    assert forall|i: int| 0 <= i < ws implies read_seq(w, start, ws)[i] == xs[k - ws + i] by {
        let m = k - (ws as int) + i;
        lemma_mod_shift(wend + len - ws, i, len);
        lemma_mod_shift(w0 + k, len - ws + i, len);
        lemma_mod_add_multiples_vanish(w0 + m, len);
        lemma_written_index(c, w0, xs, m);
    }
    assert(read_seq(w, start, ws) =~= xs.subrange(k - ws, k));
}

/// Circular reads are periodic: any run of reads repeats itself after one
/// full buffer length, whatever the contents.
pub proof fn lemma_read_seq_periodic(c: Seq<i64>, start: int, n: nat)
    requires
        c.len() >= 1,
        0 <= start,
    ensures
        forall|j: int|
            0 <= j && j + c.len() < n ==> #[trigger] read_seq(c, start, n)[j] == read_seq(
                c,
                start,
                n,
            )[j + c.len()],
{
    assert forall|j: int| 0 <= j && j + c.len() < n implies #[trigger] read_seq(c, start, n)[j]
        == read_seq(c, start, n)[j + c.len()] by {
        lemma_mod_add_multiples_vanish(start + j, c.len() as int);
    }
}

/// Smoothing preserves the length of the contents.
pub proof fn lemma_smoothed_len(c: Seq<i64>, start: int, k: nat)
    requires
        c.len() >= 1,
    ensures
        smoothed(c, start, k).len() == c.len(),
    decreases k,
{
    if k > 0 {
        lemma_smoothed_len(c, start, (k - 1) as nat);
        lemma_mod_division_less_than_divisor(start + k - 1, c.len() as int);
    }
}

/// Smoothing touches only its own region: a pass of depth `k` starting at
/// position `start` (with the region not wrapping) leaves every sample
/// outside `[start, start + k)` exactly as it was.
pub proof fn lemma_smoothed_beyond_depth(c: Seq<i64>, start: int, k: nat)
    requires
        c.len() >= 1,
        0 <= start,
        start + k <= c.len(),
    ensures
        forall|p: int|
            (0 <= p < start || start + k <= p < c.len()) ==> smoothed(c, start, k)[p] == c[p],
    decreases k,
{
    if k > 0 {
        lemma_smoothed_beyond_depth(c, start, (k - 1) as nat);
        lemma_smoothed_len(c, start, (k - 1) as nat);
        lemma_small_mod((start + k - 1) as nat, c.len() as nat);
    }
}

/// Smoothing with depth 0 is a no-op: the contents come out unchanged.
pub proof fn lemma_smooth_depth_zero(c: Seq<i64>, start: int)
    ensures
        smoothed(c, start, 0) == c,
{
}

/// The sample at the start of the smoothed region is set by the first step
/// and never revisited while the region does not wrap.
proof fn lemma_smoothed_seam_value(c: Seq<i64>, start: int, k: nat)
    requires
        c.len() >= 1,
        0 <= start,
        1 <= k,
        start + k <= c.len(),
    ensures
        smoothed(c, start, k)[start] == blend_at(c, start)[start],
    decreases k,
{
    lemma_small_mod(start as nat, c.len() as nat);
    if k > 1 {
        lemma_smoothed_seam_value(c, start, (k - 1) as nat);
        lemma_smoothed_len(c, start, (k - 1) as nat);
        lemma_small_mod((start + k - 1) as nat, c.len() as nat);
    }
}

/// A single smoothing pass halves the discontinuity at the seam, up to one
/// unit of integer rounding: once the pass is done, the gap between the
/// first smoothed sample and its untouched circular predecessor is at most
/// half the gap that stood there before, rounded up.
pub proof fn lemma_smooth_halves_seam(c: Seq<i64>, start: int, k: nat)
    requires
        c.len() >= 1,
        0 <= start,
        1 <= k,
        start + k <= c.len(),
        start > 0 || k < c.len(),
    ensures
        ({
            let pred = (start + c.len() - 1) % (c.len() as int);
            let c2 = smoothed(c, start, k);
            2 * vstd::math::abs(c2[start] - c2[pred]) <= vstd::math::abs(c[start] - c[pred]) + 1
        }),
{
    let len = c.len() as int;
    let pred = (start + len - 1) % len;
    lemma_pred_mod(start, len);
    lemma_smoothed_seam_value(c, start, k);
    lemma_smoothed_len(c, start, k);
    lemma_smoothed_beyond_depth(c, start, k);
    let pa = c[pred] as int;
    let pb = c[start] as int;
    crate::blend::lemma_avg_between(pa, pb);
    crate::blend::lemma_avg_halves_gap(pa, pb);
    assert(smoothed(c, start, k)[pred] == c[pred]);
    assert(smoothed(c, start, k)[start] == crate::blend::sample_avg(pa, pb) as i64);
}

} // verus!
