//! Gathering decoded frames into one contiguous buffer per channel.
use vstd::prelude::*;

verus! {

/// Why the decoded frames do not make a valid stream.
#[derive(Clone, Copy, Debug, PartialEq, Eq, Structural)]
pub enum AssembleError {
    /// A frame's sample count is not a multiple of the channel count, or it
    /// has another number of planes than the stream has channels.
    MalformedFrame,
    /// The channels ended with different lengths.
    ChannelLengthMismatch,
}

/// A fully assembled stream: one buffer per channel, all of one length.
pub struct AudioFile<S> {
    pub path: String,
    pub sample_rate: u32,
    pub sample_buffers: Vec<Vec<S>>,
}

/// Channel `c` of a frame that stores its channels back to back.
pub open spec fn planar_part<S>(s: Seq<S>, channels: nat, c: int) -> Seq<S>
    recommends
        channels > 0,
{
    let n = s.len() / channels;
    s.subrange(c * n, c * n + n)
}

/// Channel `c` of a frame that alternates its channels sample by sample.
pub open spec fn interleaved_part<S>(s: Seq<S>, channels: nat, c: int) -> Seq<S>
    recommends
        channels > 0,
{
    Seq::new(s.len() / channels, |i: int| s[i * channels + c])
}

/// The value of each inner vector.
pub open spec fn buffers_view<S>(b: Seq<Vec<S>>) -> Seq<Seq<S>> {
    Seq::new(b.len(), |i: int| b[i]@)
}

/// All sequences have the length of the first.
pub open spec fn equal_lengths<S>(b: Seq<Seq<S>>) -> bool {
    forall|i: int| 0 <= i < b.len() ==> #[trigger] b[i].len() == b[0].len()
}

proof fn lemma_part_bounds(c: int, n: int, ch: int, len: int)
    requires
        0 <= c < ch,
        n == len / ch,
        len >= 0,
    ensures
        0 <= c * n,
        c * n + n <= len,
        n > 0 ==> c + (n - 1) * ch < len,
{
    assert(n * ch <= len) by (nonlinear_arith)
        requires
            n == len / ch,
            len >= 0,
            ch > 0,
    ;
    assert(n > 0 ==> c + (n - 1) * ch < n * ch) by (nonlinear_arith)
        requires
            0 <= c < ch,
    ;
    assert(0 <= c * n && c * n + n <= n * ch) by (nonlinear_arith)
        requires
            0 <= c < ch,
            n >= 0,
    ;
}

/// Appends `count` samples of `src`, from `start` on, `step` apart.
fn append_strided<S: Copy>(dst: &mut Vec<S>, src: &Vec<S>, start: usize, step: usize, count: usize)
    requires
        count > 0 ==> start + (count - 1) * step < src@.len(),
    ensures
        final(dst)@ == old(dst)@ + Seq::new(count as nat, |i: int| src@[start + i * step]),
{
    let ghost base = dst@;
    let mut i: usize = 0;
    while i < count
        invariant
            i <= count,
            count > 0 ==> start + (count - 1) * step < src@.len(),
            dst@ == base + Seq::new(i as nat, |q: int| src@[start + q * step]),
        decreases count - i,
    {
        assert(0 <= i * step <= (count - 1) * step) by (nonlinear_arith)
            requires
                0 <= i < count,
                step >= 0,
        ;
        let len = src.len();
        assert(start + i * step < len);
        let x = src[start + i * step];
        dst.push(x);
        assert(dst@ =~= base + Seq::new((i + 1) as nat, |q: int| src@[start + q * step]));
        i += 1;
    }
}

/// The samples of one decoded frame, in one of three layouts.
pub enum FrameSamples<S> {
    /// Channels stored back to back, in equal runs.
    Planar(Vec<S>),
    /// Channels alternating sample by sample.
    Interleaved(Vec<S>),
    /// One vector per channel.
    Planes(Vec<Vec<S>>),
}

/// What the decoder handed over on one pull.
pub enum DecodeEvent<S> {
    /// A frame decoded from a packet of track `track_id`.
    Frame { track_id: u32, samples: FrameSamples<S> },
    /// A packet that could not be decoded; it is skipped.
    Corrupt,
    /// The stream is exhausted.
    EndOfStream,
    /// An error after which nothing more can be read.
    Fatal,
}

/// What the decode loop does next.
#[derive(Clone, Copy, Debug, PartialEq, Eq, Structural)]
pub enum LoopAction {
    Continue,
    Finish,
    Abort,
}

/// The frame fits a stream of `channels` channels.
pub open spec fn frame_fits<S>(f: FrameSamples<S>, channels: nat) -> bool {
    match f {
        FrameSamples::Planar(v) => v@.len() % channels == 0,
        FrameSamples::Interleaved(v) => v@.len() % channels == 0,
        FrameSamples::Planes(p) => p@.len() == channels,
    }
}

/// The buffers after the frame is appended, channel by channel.
pub open spec fn with_frame<S>(b: Seq<Seq<S>>, f: FrameSamples<S>) -> Seq<Seq<S>> {
    Seq::new(
        b.len(),
        |c: int|
            b[c] + match f {
                FrameSamples::Planar(v) => planar_part(v@, b.len(), c),
                FrameSamples::Interleaved(v) => interleaved_part(v@, b.len(), c),
                FrameSamples::Planes(p) => p@[c]@,
            },
    )
}

/// Collects the frames of one track into per-channel buffers.
pub struct Assembler<S> {
    pub track_id: u32,
    pub channels: Vec<Vec<S>>,
}

impl<S: Copy> Assembler<S> {
    /// What has been assembled so far, per channel.
    pub open spec fn buffers(self) -> Seq<Seq<S>> {
        buffers_view(self.channels@)
    }

    /// An assembler for `channel_count` channels of track `track_id`.
    pub fn new(track_id: u32, channel_count: usize) -> (r: Self)
        requires
            channel_count >= 1,
        ensures
            r.wf(),
            r.track_id == track_id,
            r.buffers().len() == channel_count,
            forall|c: int| 0 <= c < channel_count ==> (#[trigger] r.buffers()[c]).len() == 0,
    {
        let mut channels: Vec<Vec<S>> = Vec::with_capacity(channel_count);
        let mut c: usize = 0;
        while c < channel_count
            invariant
                c <= channel_count,
                channels@.len() == c,
                forall|q: int| 0 <= q < c ==> (#[trigger] channels@[q])@.len() == 0,
            decreases channel_count - c,
        {
            channels.push(Vec::new());
            c += 1;
        }
        Assembler { track_id, channels }
    }

    /// Whether a packet of track `packet_track` is to be decoded; packets of
    /// other tracks are skipped.
    pub fn accepts(&self, packet_track: u32) -> (r: bool)
        ensures
            r == (packet_track == self.track_id),
    {
        packet_track == self.track_id
    }

    /// At least one channel.
    pub open spec fn wf(self) -> bool {
        self.channels@.len() >= 1
    }

    /// Appends a frame whose channels are stored back to back: channel `c`
    /// gets the `c`-th of `channel count` equal runs.
    pub fn push_planar(&mut self, samples: &Vec<S>) -> (r: Result<(), AssembleError>)
        requires
            old(self).wf(),
        ensures
            final(self).wf(),
            final(self).track_id == old(self).track_id,
            r is Err <==> samples@.len() % old(self).buffers().len() != 0,
            r is Err ==> r == Err::<(), AssembleError>(AssembleError::MalformedFrame)
                && final(self).buffers() == old(self).buffers(),
            r is Ok ==> final(self).buffers() == Seq::new(
                old(self).buffers().len(),
                |c: int| old(self).buffers()[c] + planar_part(samples@, old(self).buffers().len(), c),
            ),
    {
        let ch = self.channels.len();
        let len = samples.len();
        if len % ch != 0 {
            return Err(AssembleError::MalformedFrame);
        }
        let n = len / ch;
        let ghost before = self.buffers();
        let mut c: usize = 0;
        while c < ch
            invariant
                c <= ch,
                ch == before.len(),
                n == len / ch,
                len == samples@.len(),
                self.channels@.len() == ch,
                self.track_id == old(self).track_id,
                before == old(self).buffers(),
                forall|q: int| 0 <= q < c ==> #[trigger] self.buffers()[q] == before[q] + planar_part(samples@, ch as nat, q),
                forall|q: int| c <= q < ch ==> #[trigger] self.buffers()[q] == before[q],
            decreases ch - c,
        {
            proof {
                lemma_part_bounds(c as int, n as int, ch as int, len as int);
            }
            let ghost prev = self.buffers();
            append_strided(&mut self.channels[c], samples, c * n, 1, n);
            assert(Seq::new(n as nat, |i: int| samples@[c * n + i * 1]) =~= planar_part(samples@, ch as nat, c as int));
            assert forall|q: int| 0 <= q < ch && q != c implies #[trigger] self.buffers()[q] == prev[q] by {
                assert(self.buffers()[q] == self.channels@[q]@);
            }
            assert(self.buffers()[c as int] == self.channels@[c as int]@);
            assert(prev[c as int] == before[c as int]);
            assert(self.buffers()[c as int] == before[c as int] + planar_part(samples@, ch as nat, c as int));
            c += 1;
        }
        assert(self.buffers() =~= Seq::new(
            before.len(),
            |c: int| before[c] + planar_part(samples@, before.len(), c),
        ));
        Ok(())
    }

    /// Appends a frame whose channels alternate sample by sample: channel `c`
    /// gets every `channel count`-th sample from index `c` on.
    pub fn push_interleaved(&mut self, samples: &Vec<S>) -> (r: Result<(), AssembleError>)
        requires
            old(self).wf(),
        ensures
            final(self).wf(),
            final(self).track_id == old(self).track_id,
            r is Err <==> samples@.len() % old(self).buffers().len() != 0,
            r is Err ==> r == Err::<(), AssembleError>(AssembleError::MalformedFrame)
                && final(self).buffers() == old(self).buffers(),
            r is Ok ==> final(self).buffers() == Seq::new(
                old(self).buffers().len(),
                |c: int| old(self).buffers()[c] + interleaved_part(samples@, old(self).buffers().len(), c),
            ),
    {
        let ch = self.channels.len();
        let len = samples.len();
        if len % ch != 0 {
            return Err(AssembleError::MalformedFrame);
        }
        let n = len / ch;
        let ghost before = self.buffers();
        let mut c: usize = 0;
        while c < ch
            invariant
                c <= ch,
                ch == before.len(),
                n == len / ch,
                len == samples@.len(),
                self.channels@.len() == ch,
                self.track_id == old(self).track_id,
                before == old(self).buffers(),
                forall|q: int| 0 <= q < c ==> #[trigger] self.buffers()[q] == before[q] + interleaved_part(samples@, ch as nat, q),
                forall|q: int| c <= q < ch ==> #[trigger] self.buffers()[q] == before[q],
            decreases ch - c,
        {
            proof {
                lemma_part_bounds(c as int, n as int, ch as int, len as int);
            }
            let ghost prev = self.buffers();
            append_strided(&mut self.channels[c], samples, c, ch, n);
            assert(Seq::new(n as nat, |i: int| samples@[c + i * ch]) =~= interleaved_part(samples@, ch as nat, c as int));
            assert forall|q: int| 0 <= q < ch && q != c implies #[trigger] self.buffers()[q] == prev[q] by {
                assert(self.buffers()[q] == self.channels@[q]@);
            }
            assert(self.buffers()[c as int] == self.channels@[c as int]@);
            assert(prev[c as int] == before[c as int]);
            assert(self.buffers()[c as int] == before[c as int] + interleaved_part(samples@, ch as nat, c as int));
            c += 1;
        }
        assert(self.buffers() =~= Seq::new(
            before.len(),
            |c: int| before[c] + interleaved_part(samples@, before.len(), c),
        ));
        Ok(())
    }

    /// Appends a frame given as one plane per channel.
    pub fn push_planes(&mut self, planes: &Vec<Vec<S>>) -> (r: Result<(), AssembleError>)
        requires
            old(self).wf(),
        ensures
            final(self).wf(),
            final(self).track_id == old(self).track_id,
            r is Err <==> planes@.len() != old(self).buffers().len(),
            r is Err ==> r == Err::<(), AssembleError>(AssembleError::MalformedFrame)
                && final(self).buffers() == old(self).buffers(),
            r is Ok ==> final(self).buffers() == Seq::new(
                old(self).buffers().len(),
                |c: int| old(self).buffers()[c] + planes@[c]@,
            ),
    {
        let ch = self.channels.len();
        if planes.len() != ch {
            return Err(AssembleError::MalformedFrame);
        }
        let ghost before = self.buffers();
        let mut c: usize = 0;
        while c < ch
            invariant
                c <= ch,
                ch == before.len(),
                planes@.len() == ch,
                self.channels@.len() == ch,
                self.track_id == old(self).track_id,
                before == old(self).buffers(),
                forall|q: int| 0 <= q < c ==> #[trigger] self.buffers()[q] == before[q] + planes@[q]@,
                forall|q: int| c <= q < ch ==> #[trigger] self.buffers()[q] == before[q],
            decreases ch - c,
        {
            let ghost prev = self.buffers();
            let plane = &planes[c];
            append_strided(&mut self.channels[c], plane, 0, 1, plane.len());
            assert(Seq::new(plane@.len(), |i: int| plane@[0 + i * 1]) =~= plane@);
            assert forall|q: int| 0 <= q < ch && q != c implies #[trigger] self.buffers()[q] == prev[q] by {
                assert(self.buffers()[q] == self.channels@[q]@);
            }
            assert(self.buffers()[c as int] == self.channels@[c as int]@);
            assert(prev[c as int] == before[c as int]);
            assert(self.buffers()[c as int] == before[c as int] + planes@[c as int]@);
            c += 1;
        }
        assert(self.buffers() =~= Seq::new(before.len(), |c: int| before[c] + planes@[c]@));
        Ok(())
    }

    /// Ends assembly: the buffers become an `AudioFile` when every channel
    /// has the length of the first.
    pub fn finish(self, path: String, sample_rate: u32) -> (r: Result<AudioFile<S>, AssembleError>)
        requires
            self.wf(),
        ensures
            r is Ok <==> equal_lengths(self.buffers()),
            r is Err ==> r == Err::<AudioFile<S>, AssembleError>(AssembleError::ChannelLengthMismatch),
            r matches Ok(a) ==> a.path == path && a.sample_rate == sample_rate
                && buffers_view(a.sample_buffers@) == self.buffers(),
    {
        let ch = self.channels.len();
        let first = self.channels[0].len();
        let mut c: usize = 1;
        while c < ch
            invariant
                1 <= c <= ch,
                ch == self.buffers().len(),
                first == self.buffers()[0].len(),
                forall|q: int| 0 <= q < c ==> #[trigger] self.buffers()[q].len() == first,
            decreases ch - c,
        {
            if self.channels[c].len() != first {
                assert(self.buffers()[c as int].len() != self.buffers()[0].len());
                return Err(AssembleError::ChannelLengthMismatch);
            }
            c += 1;
        }
        Ok(AudioFile { path, sample_rate, sample_buffers: self.channels })
    }

    /// Handles one pull from the decoder. Frames of other tracks and corrupt
    /// packets are skipped; a frame of this track is appended; the end of
    /// the stream finishes and a fatal error aborts.
    pub fn step(&mut self, event: DecodeEvent<S>) -> (r: Result<LoopAction, AssembleError>)
        requires
            old(self).wf(),
        ensures
            final(self).wf(),
            final(self).track_id == old(self).track_id,
            match event {
                DecodeEvent::Frame { track_id, samples } => {
                    if track_id != old(self).track_id {
                        r == Ok::<LoopAction, AssembleError>(LoopAction::Continue)
                            && final(self).buffers() == old(self).buffers()
                    } else if frame_fits(samples, old(self).buffers().len()) {
                        r == Ok::<LoopAction, AssembleError>(LoopAction::Continue)
                            && final(self).buffers() == with_frame(old(self).buffers(), samples)
                    } else {
                        r == Err::<LoopAction, AssembleError>(AssembleError::MalformedFrame)
                            && final(self).buffers() == old(self).buffers()
                    }
                },
                DecodeEvent::Corrupt => r == Ok::<LoopAction, AssembleError>(LoopAction::Continue)
                    && final(self).buffers() == old(self).buffers(),
                DecodeEvent::EndOfStream => r == Ok::<LoopAction, AssembleError>(LoopAction::Finish)
                    && final(self).buffers() == old(self).buffers(),
                DecodeEvent::Fatal => r == Ok::<LoopAction, AssembleError>(LoopAction::Abort)
                    && final(self).buffers() == old(self).buffers(),
            },
    {
        match event {
            DecodeEvent::Frame { track_id, samples } => {
                if !self.accepts(track_id) {
                    return Ok(LoopAction::Continue);
                }
                let ghost before = self.buffers();
                let pushed = match samples {
                    FrameSamples::Planar(v) => self.push_planar(&v),
                    FrameSamples::Interleaved(v) => self.push_interleaved(&v),
                    FrameSamples::Planes(p) => self.push_planes(&p),
                };
                assert(pushed is Ok ==> self.buffers() =~= with_frame(before, samples));
                match pushed {
                    Ok(()) => Ok(LoopAction::Continue),
                    Err(e) => Err(e),
                }
            },
            DecodeEvent::Corrupt => Ok(LoopAction::Continue),
            DecodeEvent::EndOfStream => Ok(LoopAction::Finish),
            DecodeEvent::Fatal => Ok(LoopAction::Abort),
        }
    }
}

} // verus!
