//! The freeze engine.
//!
//! One engine instance owns, per audio channel, a rolling input recorder and
//! a loop-content store, and tracks the single held note, the computed
//! window size and the per-channel release-crossfade countdowns. Note
//! events drive the state machine Live → Frozen → Releasing → Live; the
//! per-sample policy decides what each channel emits.
//!
//! The window size — one period of the held pitch at the current sample
//! rate — is supplied by the caller on note-on: its computation belongs to
//! the host-facing tuning math, not to the buffer bookkeeping verified here.
use crate::ring::{read_seq, smoothed, RingBuffer};
use crate::{CHANNELS, MAX_WINDOW_SIZE, XFADE_FRAMES};
use vstd::arithmetic::div_mod::{
    lemma_mod_add_multiples_vanish, lemma_mod_self_0, lemma_small_mod,
};
use vstd::prelude::*;

verus! {

/// Per-channel state: the rolling input recorder, the loop-content store,
/// and this channel's release-crossfade countdown.
pub struct ChannelState {
    input: RingBuffer,
    output: RingBuffer,
    xfade_remaining: usize,
}

/// The engine: one held note and window size shared by all channels, with
/// one independently cursored buffer pair per channel.
pub struct FreezeEngine {
    held_note: Option<u8>,
    window_size: usize,
    left: ChannelState,
    right: ChannelState,
}

/// Neither ring of the channel moved: storage, lengths and cursors all kept.
pub open spec fn rings_unchanged(pre: ChannelState, post: ChannelState) -> bool {
    &&& post.input_ring().storage() == pre.input_ring().storage()
    &&& post.input_ring().length() == pre.input_ring().length()
    &&& post.input_ring().rpos() == pre.input_ring().rpos()
    &&& post.input_ring().wpos() == pre.input_ring().wpos()
    &&& post.output_ring().storage() == pre.output_ring().storage()
    &&& post.output_ring().length() == pre.output_ring().length()
    &&& post.output_ring().rpos() == pre.output_ring().rpos()
    &&& post.output_ring().wpos() == pre.output_ring().wpos()
}

/// The channel is exactly as it was.
pub open spec fn channel_unchanged(pre: ChannelState, post: ChannelState) -> bool {
    &&& rings_unchanged(pre, post)
    &&& post.xfade() == pre.xfade()
}

/// The loop content a note-on captures from one input ring: the last `ws`
/// samples recorded, seam-smoothed over the crossfade depth (capped at the
/// window itself).
pub open spec fn captured_window(input: RingBuffer, ws: int) -> Seq<i64> {
    smoothed(
        read_seq(
            input.contents(),
            (input.wpos() + input.length() - ws) % input.length(),
            ws as nat,
        ),
        0,
        (if ws < XFADE_FRAMES {
            ws
        } else {
            XFADE_FRAMES as int
        }) as nat,
    )
}

/// What a note-on does to one channel's rings: the input ring's content and
/// write cursor are untouched, its read cursor comes to rest on the write
/// cursor, and the output ring holds exactly the captured window with both
/// cursors at 0.
pub open spec fn rings_frozen_from(pre: ChannelState, post: ChannelState, ws: int) -> bool {
    &&& post.input_ring().storage() == pre.input_ring().storage()
    &&& post.input_ring().length() == pre.input_ring().length()
    &&& post.input_ring().wpos() == pre.input_ring().wpos()
    &&& post.input_ring().rpos() == pre.input_ring().wpos()
    &&& post.output_ring().capacity() == pre.output_ring().capacity()
    &&& post.output_ring().length() == ws
    &&& post.output_ring().rpos() == 0
    &&& post.output_ring().wpos() == 0
    &&& post.output_ring().contents() == captured_window(pre.input_ring(), ws)
}

/// The per-sample output policy, as a relation between the channel before
/// and after one tick. The input sample is always recorded; then, in
/// priority order: a frozen engine replays the loop, an active countdown
/// cross-fades loop against live input, and otherwise the live sample
/// passes through.
pub open spec fn sample_step(
    pre: ChannelState,
    post: ChannelState,
    held: bool,
    sample: i64,
    out: i64,
) -> bool {
    &&& post.input_ring().contents() == pre.input_ring().contents().update(
        pre.input_ring().wpos(),
        sample,
    )
    &&& post.input_ring().length() == pre.input_ring().length()
    &&& post.input_ring().rpos() == pre.input_ring().rpos()
    &&& post.input_ring().wpos() == (pre.input_ring().wpos() + 1) % pre.input_ring().length()
    &&& if held {
        &&& out == pre.output_ring().contents()[pre.output_ring().rpos()]
        &&& post.output_ring().storage() == pre.output_ring().storage()
        &&& post.output_ring().length() == pre.output_ring().length()
        &&& post.output_ring().wpos() == pre.output_ring().wpos()
        &&& post.output_ring().rpos() == (pre.output_ring().rpos() + 1)
            % pre.output_ring().length()
        &&& post.xfade() == pre.xfade()
    } else if pre.xfade() > 0 {
        &&& out as int == crate::blend::xfade_mix(
            pre.xfade(),
            pre.output_ring().contents()[pre.output_ring().rpos()] as int,
            sample as int,
        )
        &&& post.output_ring().storage() == pre.output_ring().storage()
        &&& post.output_ring().length() == pre.output_ring().length()
        &&& post.output_ring().wpos() == pre.output_ring().wpos()
        &&& post.output_ring().rpos() == (pre.output_ring().rpos() + 1)
            % pre.output_ring().length()
        &&& post.xfade() == pre.xfade() - 1
    } else {
        &&& out == sample
        &&& post.output_ring().storage() == pre.output_ring().storage()
        &&& post.output_ring().length() == pre.output_ring().length()
        &&& post.output_ring().wpos() == pre.output_ring().wpos()
        &&& post.output_ring().rpos() == pre.output_ring().rpos()
        &&& post.xfade() == 0
    }
}

/// A freshly constructed channel: both rings at full length, zero-filled,
/// cursors parked, no countdown.
pub open spec fn fresh_channel(ch: ChannelState) -> bool {
    &&& ch.input_ring().length() == MAX_WINDOW_SIZE
    &&& ch.input_ring().rpos() == 0
    &&& ch.input_ring().wpos() == 0
    &&& (forall|i: int| 0 <= i < MAX_WINDOW_SIZE ==> ch.input_ring().contents()[i] == 0i64)
    &&& ch.output_ring().length() == MAX_WINDOW_SIZE
    &&& ch.output_ring().rpos() == 0
    &&& ch.output_ring().wpos() == 0
    &&& (forall|i: int| 0 <= i < MAX_WINDOW_SIZE ==> ch.output_ring().contents()[i] == 0i64)
    &&& ch.xfade() == 0
}

impl ChannelState {
    /// The rolling history recorder this channel writes every input sample
    /// into.
    pub closed spec fn input_ring(self) -> RingBuffer {
        self.input
    }

    /// The loop-content store this channel replays while frozen or
    /// releasing.
    pub closed spec fn output_ring(self) -> RingBuffer {
        self.output
    }

    /// Samples left in this channel's release crossfade; 0 when inactive.
    pub closed spec fn xfade(self) -> int {
        self.xfade_remaining as int
    }

    /// Channel well-formedness, relative to whether a note is held: the
    /// input ring always runs at full capacity; a held note silences the
    /// countdown; whenever the output ring is being replayed it is
    /// non-empty.
    pub open spec fn wf(self, held: bool) -> bool {
        &&& self.input_ring().wf()
        &&& self.input_ring().capacity() == MAX_WINDOW_SIZE
        &&& self.input_ring().length() == MAX_WINDOW_SIZE
        &&& self.output_ring().wf()
        &&& self.output_ring().capacity() == MAX_WINDOW_SIZE
        &&& 0 <= self.xfade() <= XFADE_FRAMES
        &&& (held ==> self.xfade() == 0)
        &&& ((held || self.xfade() > 0) ==> self.output_ring().length() >= 1)
    }

    fn new() -> (ch: ChannelState)
        ensures
            ch.wf(false),
            fresh_channel(ch),
    {
        let mut input = RingBuffer::new(MAX_WINDOW_SIZE);
        input.resize(MAX_WINDOW_SIZE, 0);
        let mut output = RingBuffer::new(MAX_WINDOW_SIZE);
        output.resize(MAX_WINDOW_SIZE, 0);
        ChannelState { input, output, xfade_remaining: 0 }
    }

    /// Rewinds the input ring over the last `window_size` samples, reseeds
    /// the output ring from it, and smooths the loop seam.
    fn capture(&mut self, window_size: usize)
        requires
            old(self).wf(false),
            1 <= window_size <= MAX_WINDOW_SIZE,
        ensures
            final(self).wf(false),
            rings_frozen_from(*old(self), *final(self), window_size as int),
            final(self).xfade() == old(self).xfade(),
    {
        self.input.open_window(window_size);
        let ghost start = self.input.rpos();
        self.output.resize(window_size, 0);
        let mut i: usize = 0;
        while i < window_size
            invariant
                i <= window_size,
                1 <= window_size <= MAX_WINDOW_SIZE,
                self.input.wf(),
                self.input.length() == MAX_WINDOW_SIZE,
                self.input.capacity() == MAX_WINDOW_SIZE,
                old(self).input_ring().length() == MAX_WINDOW_SIZE,
                self.input.storage() == old(self).input_ring().storage(),
                self.input.wpos() == old(self).input_ring().wpos(),
                self.input.rpos() == (start + i) % (MAX_WINDOW_SIZE as int),
                start == (old(self).input_ring().wpos() + MAX_WINDOW_SIZE - window_size) % (
                MAX_WINDOW_SIZE as int),
                self.output.wf(),
                self.output.capacity() == MAX_WINDOW_SIZE,
                self.output.length() == window_size,
                self.output.rpos() == 0,
                self.output.wpos() == i as int % (window_size as int),
                forall|p: int|
                    0 <= p < i ==> self.output.contents()[p] == read_seq(
                        old(self).input_ring().contents(),
                        start,
                        window_size as nat,
                    )[p],
                self.xfade_remaining == old(self).xfade_remaining,
            decreases window_size - i,
        {
            proof {
                lemma_small_mod(i as nat, window_size as nat);
            }
            let s = self.input.read();
            self.output.write(s);
            proof {
                let c0 = old(self).input_ring().contents();
                let full = read_seq(c0, start, window_size as nat);
                assert(s == c0[(start + i) % (MAX_WINDOW_SIZE as int)]);
                assert(full[i as int] == c0[(start + i) % (MAX_WINDOW_SIZE as int)]);
                assert forall|p: int| 0 <= p < i + 1 implies self.output.contents()[p] == full[p]
                by {
                    if p == i {
                        assert(self.output.contents()[p] == s);
                    }
                }
                crate::ring::lemma_mod_shift(start + i, 1, MAX_WINDOW_SIZE as int);
                crate::ring::lemma_mod_shift(i as int, 1, window_size as int);
            }
            i = i + 1;
        }
        proof {
            lemma_mod_self_0(window_size as int);
            assert(self.output.contents() =~= read_seq(
                old(self).input_ring().contents(),
                start,
                window_size as nat,
            ));
            crate::ring::lemma_mod_shift(
                old(self).input_ring().wpos() + MAX_WINDOW_SIZE - window_size,
                window_size as int,
                MAX_WINDOW_SIZE as int,
            );
            lemma_mod_add_multiples_vanish(old(self).input_ring().wpos(), MAX_WINDOW_SIZE as int);
            lemma_small_mod(old(self).input_ring().wpos() as nat, MAX_WINDOW_SIZE as nat);
        }
        self.output.smooth(XFADE_FRAMES);
    }

    /// One tick of this channel: record the live sample, then emit per the
    /// output policy.
    fn process_sample(&mut self, held: bool, sample: i64) -> (out: i64)
        requires
            old(self).wf(held),
        ensures
            final(self).wf(held),
            sample_step(*old(self), *final(self), held, sample, out),
    {
        self.input.write(sample);
        if held {
            self.output.read()
        } else if self.xfade_remaining > 0 {
            let looped = self.output.read();
            let mix = crate::blend::mix_samples(self.xfade_remaining, looped, sample);
            self.xfade_remaining = self.xfade_remaining - 1;
            mix
        } else {
            sample
        }
    }
}

impl FreezeEngine {
    /// The currently held pitch; `None` when not frozen.
    pub closed spec fn held(self) -> Option<u8> {
        self.held_note
    }

    /// The window size computed at the last note-on.
    pub closed spec fn window(self) -> int {
        self.window_size as int
    }

    /// The state of channel `c` (0 = left, 1 = right).
    pub closed spec fn channel_at(self, c: int) -> ChannelState {
        if c == 0 {
            self.left
        } else {
            self.right
        }
    }

    /// Engine well-formedness: both channels well formed, and while a note
    /// is held every output ring runs at exactly the window length.
    pub open spec fn wf(self) -> bool {
        &&& self.channel_at(0).wf(self.held() is Some)
        &&& self.channel_at(1).wf(self.held() is Some)
        &&& 0 <= self.window() <= MAX_WINDOW_SIZE
        &&& (self.held() is Some ==> 1 <= self.window()
            && self.channel_at(0).output_ring().length() == self.window()
            && self.channel_at(1).output_ring().length() == self.window())
    }

    /// A fresh engine in the Live state, with zero-filled full-capacity
    /// buffers on both channels.
    pub fn new() -> (engine: FreezeEngine)
        ensures
            engine.wf(),
            engine.held() is None,
            engine.window() == 0,
            fresh_channel(engine.channel_at(0)),
            fresh_channel(engine.channel_at(1)),
    {
        FreezeEngine {
            held_note: None,
            window_size: 0,
            left: ChannelState::new(),
            right: ChannelState::new(),
        }
    }

    /// Freeze on note-on: captures, on every channel, the most recent
    /// `window_size` samples of input history into the output ring, smooths
    /// the loop seam, holds `pitch`, and supersedes any release countdown.
    /// A note-on while already frozen replaces the held note the same way.
    ///
    /// `window_size` is one period of `pitch` at the engine's sample rate;
    /// the pitch range and the capacity sizing keep it within
    /// [`MAX_WINDOW_SIZE`], which this contract demands rather than checks.
    pub fn note_on(&mut self, pitch: u8, window_size: usize)
        requires
            old(self).wf(),
            1 <= window_size <= MAX_WINDOW_SIZE,
        ensures
            final(self).wf(),
            final(self).held() == Some(pitch),
            final(self).window() == window_size,
            rings_frozen_from(
                old(self).channel_at(0),
                final(self).channel_at(0),
                window_size as int,
            ),
            rings_frozen_from(
                old(self).channel_at(1),
                final(self).channel_at(1),
                window_size as int,
            ),
            final(self).channel_at(0).xfade() == 0,
            final(self).channel_at(1).xfade() == 0,
    {
        self.held_note = Some(pitch);
        self.window_size = window_size;
        self.left.capture(window_size);
        self.right.capture(window_size);
        self.left.xfade_remaining = 0;
        self.right.xfade_remaining = 0;
    }

    /// Release on note-off: only a note-off whose pitch matches the held
    /// one has any effect — it clears the held note and arms the release
    /// countdown on every channel, leaving all buffers as they are. A
    /// mismatched or stray note-off is a no-op.
    pub fn note_off(&mut self, pitch: u8)
        requires
            old(self).wf(),
        ensures
            final(self).wf(),
            old(self).held() == Some(pitch) ==> {
                &&& final(self).held() is None
                &&& final(self).window() == old(self).window()
                &&& rings_unchanged(old(self).channel_at(0), final(self).channel_at(0))
                &&& rings_unchanged(old(self).channel_at(1), final(self).channel_at(1))
                &&& final(self).channel_at(0).xfade() == XFADE_FRAMES
                &&& final(self).channel_at(1).xfade() == XFADE_FRAMES
            },
            old(self).held() != Some(pitch) ==> {
                &&& final(self).held() == old(self).held()
                &&& final(self).window() == old(self).window()
                &&& channel_unchanged(old(self).channel_at(0), final(self).channel_at(0))
                &&& channel_unchanged(old(self).channel_at(1), final(self).channel_at(1))
            },
    {
        let release = match self.held_note {
            Some(note) => note == pitch,
            None => false,
        };
        if release {
            self.held_note = None;
            self.left.xfade_remaining = XFADE_FRAMES;
            self.right.xfade_remaining = XFADE_FRAMES;
        }
    }

    /// One tick of channel `channel`: always records `sample` into that
    /// channel's input ring, then emits the frozen loop, the release
    /// crossfade, or the live sample, per the engine state. The other
    /// channel is untouched.
    pub fn process_sample(&mut self, channel: usize, sample: i64) -> (out: i64)
        requires
            old(self).wf(),
            channel < CHANNELS,
        ensures
            final(self).wf(),
            final(self).held() == old(self).held(),
            final(self).window() == old(self).window(),
            sample_step(
                old(self).channel_at(channel as int),
                final(self).channel_at(channel as int),
                old(self).held() is Some,
                sample,
                out,
            ),
            channel_unchanged(
                old(self).channel_at(1 - channel as int),
                final(self).channel_at(1 - channel as int),
            ),
    {
        let held = self.held_note.is_some();
        if channel == 0 {
            self.left.process_sample(held, sample)
        } else {
            self.right.process_sample(held, sample)
        }
    }

    /// The held pitch, if any.
    pub fn held_note(&self) -> (n: Option<u8>)
        ensures
            n == self.held(),
    {
        self.held_note
    }

    /// The window size computed at the last note-on.
    pub fn window_size(&self) -> (w: usize)
        ensures
            w == self.window(),
    {
        self.window_size
    }

    /// Samples left in `channel`'s release crossfade; 0 when inactive.
    pub fn xfade_remaining(&self, channel: usize) -> (x: usize)
        requires
            channel < CHANNELS,
        ensures
            x == self.channel_at(channel as int).xfade(),
    {
        if channel == 0 {
            self.left.xfade_remaining
        } else {
            self.right.xfade_remaining
        }
    }
}

/// Freeze and release are mutually exclusive: in every well-formed engine
/// state — and every engine operation both demands and re-establishes
/// well-formedness — a held note implies that no channel has an active
/// release countdown.
pub proof fn lemma_freeze_release_exclusive(engine: FreezeEngine)
    requires
        engine.wf(),
    ensures
        engine.held() is Some ==> engine.channel_at(0).xfade() == 0 && engine.channel_at(
            1,
        ).xfade() == 0,
{
}

} // verus!
