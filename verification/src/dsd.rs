//! DSD stream parameters: sample rates and channel counts.
use vstd::prelude::*;
use crate::text::to_owned;

verus! {

/// The DSD64 sample rate in Hz.
pub const DSD64_SAMPLE_RATE: u32 = 2_822_400;

/// How many one-bit DSD samples make one PCM sample.
pub const DSD_TO_PCM_DECIMATION_BITS: u32 = 64;

/// The DSD sample rate for a multiplier of the DSD64 rate: `Ok` exactly when
/// the multiplier is positive and the rate fits in `u32`.
pub fn dsd_sample_rate_from_multiplier(multiplier: i32) -> (r: Result<u32, String>)
    ensures
        multiplier < 0 ==> (r matches Err(e) && e@ == "DSD sample-rate multiplier is invalid."@),
        0 <= multiplier && (multiplier == 0 || DSD64_SAMPLE_RATE * multiplier > u32::MAX)
            ==> (r matches Err(e) && e@ == "DSD sample rate is invalid."@),
        0 < multiplier && DSD64_SAMPLE_RATE * multiplier <= u32::MAX ==> r == Ok::<u32, String>(
            (DSD64_SAMPLE_RATE * multiplier) as u32,
        ),
{
    normalize_dsd_sample_rate(multiplier)
}

fn normalize_dsd_sample_rate(multiplier: i32) -> (r: Result<u32, String>)
    ensures
        multiplier < 0 ==> (r matches Err(e) && e@ == "DSD sample-rate multiplier is invalid."@),
        0 <= multiplier && (multiplier == 0 || DSD64_SAMPLE_RATE * multiplier > u32::MAX)
            ==> (r matches Err(e) && e@ == "DSD sample rate is invalid."@),
        0 < multiplier && DSD64_SAMPLE_RATE * multiplier <= u32::MAX ==> r == Ok::<u32, String>(
            (DSD64_SAMPLE_RATE * multiplier) as u32,
        ),
{
    if multiplier < 0 {
        return Err(to_owned("DSD sample-rate multiplier is invalid."));
    }
    let m = multiplier as u32;
    match DSD64_SAMPLE_RATE.checked_mul(m) {
        Some(value) if value > 0 => Ok(value),
        _ => Err(to_owned("DSD sample rate is invalid.")),
    }
}

/// The channel count of a DSD stream: `Ok` exactly when it is positive and
/// fits in `u16`.
pub fn normalize_channel_count(channels: usize) -> (r: Result<u16, String>)
    ensures
        channels > u16::MAX ==> (r matches Err(e) && e@ == "DSD channel count is too large."@),
        channels == 0 ==> (r matches Err(e) && e@ == "DSD audio does not report any channels."@),
        0 < channels <= u16::MAX ==> r == Ok::<u16, String>(channels as u16),
{
    if channels > u16::MAX as usize {
        return Err(to_owned("DSD channel count is too large."));
    }
    if channels == 0 {
        return Err(to_owned("DSD audio does not report any channels."));
    }
    Ok(channels as u16)
}

/// The PCM rate produced from a DSD rate by 64:1 decimation, at least 1.
pub fn pcm_sample_rate_for(dsd_sample_rate: u32) -> (r: u32)
    ensures
        r == if dsd_sample_rate / DSD_TO_PCM_DECIMATION_BITS >= 1 {
            dsd_sample_rate / DSD_TO_PCM_DECIMATION_BITS
        } else {
            1
        },
{
    let rate = dsd_sample_rate / DSD_TO_PCM_DECIMATION_BITS;
    if rate >= 1 {
        rate
    } else {
        1
    }
}


/// Whether bit `i` (counted from the least significant) of `byte` is set.
pub open spec fn bit_set(byte: u8, i: u8) -> bool {
    ((byte >> i) & 1u8) == 1u8
}

/// The decimation state of one channel: the running sum (+1 per set bit,
/// −1 per clear bit) and the number of bits since the last sample.
pub struct ChannelTally {
    pub sum: int,
    pub count: nat,
}

/// One more bit of a channel: it moves the sum by one; at the 64th bit the
/// sum is a sample and the tally starts again.
pub open spec fn tally_bit(t: ChannelTally, set: bool) -> (ChannelTally, Option<int>) {
    let sum = if set {
        t.sum + 1
    } else {
        t.sum - 1
    };
    let count = t.count + 1;
    if count >= DSD_TO_PCM_DECIMATION_BITS {
        (ChannelTally { sum: 0, count: 0 }, Some(sum))
    } else {
        (ChannelTally { sum, count }, None)
    }
}

/// The bits `i..8` of a byte, least significant first, added to a tally,
/// with the samples they complete.
pub open spec fn tally_byte_from(t: ChannelTally, byte: u8, i: u8) -> (ChannelTally, Seq<int>)
    decreases 8 - i,
{
    if i >= 8 {
        (t, seq![])
    } else {
        let (next, sample) = tally_bit(t, bit_set(byte, i));
        let (last, rest) = tally_byte_from(next, byte, (i + 1) as u8);
        (
            last,
            match sample {
                Some(s) => seq![s] + rest,
                None => rest,
            },
        )
    }
}

/// Interleaved DSD bytes run through the channels' tallies: byte `k` of
/// each whole frame goes to channel `k`; a last partial frame is left out.
/// Returns the tallies and the samples completed, in order.
pub open spec fn tally_frames(tallies: Seq<ChannelTally>, bytes: Seq<u8>, channels: nat) -> (Seq<ChannelTally>, Seq<int>)
    decreases bytes.len(),
{
    if channels == 0 || bytes.len() < channels {
        (tallies, seq![])
    } else {
        let (after, first) = tally_frame(tallies, bytes.take(channels as int), 0);
        let (last, rest) = tally_frames(after, bytes.skip(channels as int), channels);
        (last, first + rest)
    }
}

/// One frame's bytes from channel `c` on, through the tallies.
pub open spec fn tally_frame(tallies: Seq<ChannelTally>, frame: Seq<u8>, c: int) -> (Seq<ChannelTally>, Seq<int>)
    decreases frame.len() - c,
{
    if c < 0 || c >= frame.len() || c >= tallies.len() {
        (tallies, seq![])
    } else {
        let (t, samples) = tally_byte_from(tallies[c], frame[c], 0);
        let (last, rest) = tally_frame(tallies.update(c, t), frame, c + 1);
        (last, samples + rest)
    }
}

/// The decimation of one-bit DSD audio to PCM: per channel, 64 bits make
/// one sample, the number of set bits less the number of clear bits (the
/// PCM value is that over 64).
pub struct DsdDecimator {
    sums: Vec<i32>,
    counts: Vec<u32>,
}

impl DsdDecimator {
    /// The tallies of the channels.
    pub closed spec fn tallies(&self) -> Seq<ChannelTally> {
        Seq::new(
            self.sums@.len(),
            |c: int| ChannelTally { sum: self.sums@[c] as int, count: self.counts@[c] as nat },
        )
    }

    /// The channels' tallies are consistent: each count is below 64 and
    /// each sum is within the count of bits it adds.
    pub closed spec fn wf(&self) -> bool {
        &&& self.sums@.len() == self.counts@.len()
        &&& forall|c: int|
            0 <= c < self.sums@.len() ==> #[trigger] self.counts@[c] < DSD_TO_PCM_DECIMATION_BITS
                && -(self.counts@[c] as int) <= self.sums@[c] <= self.counts@[c]
    }

    /// A decimator for `channels` channels, every tally empty.
    pub fn new(channels: u16) -> (r: DsdDecimator)
        ensures
            r.wf(),
            r.tallies() == Seq::new(channels as nat, |c: int| ChannelTally { sum: 0, count: 0 }),
    {
        let mut sums: Vec<i32> = Vec::new();
        let mut counts: Vec<u32> = Vec::new();
        let mut k: u16 = 0;
        while k < channels
            invariant
                k <= channels,
                sums@.len() == k && counts@.len() == k,
                forall|c: int| 0 <= c < k ==> sums@[c] == 0 && counts@[c] == 0,
            decreases channels - k,
        {
            sums.push(0);
            counts.push(0);
            k += 1;
        }
        let r = DsdDecimator { sums, counts };
        assert(r.tallies() =~= Seq::new(channels as nat, |c: int| ChannelTally { sum: 0, count: 0 }));
        r
    }

    /// Starts every tally again.
    pub fn reset(&mut self)
        requires
            old(self).wf(),
        ensures
            final(self).wf(),
            final(self).tallies() == Seq::new(
                old(self).tallies().len(),
                |c: int| ChannelTally { sum: 0, count: 0 },
            ),
    {
        let mut k: usize = 0;
        let ghost len = self.sums@.len();
        while k < self.sums.len()
            invariant
                self.sums@.len() == self.counts@.len() == len,
                k <= len,
                forall|c: int| 0 <= c < k ==> self.sums@[c] == 0 && self.counts@[c] == 0,
                forall|c: int| 0 <= c < len ==> #[trigger] self.counts@[c] < DSD_TO_PCM_DECIMATION_BITS
                    && -(self.counts@[c] as int) <= self.sums@[c] <= self.counts@[c],
            decreases len - k,
        {
            self.sums.set(k, 0);
            self.counts.set(k, 0);
            k += 1;
        }
        assert(self.tallies() =~= Seq::new(len, |c: int| ChannelTally { sum: 0, count: 0 }));
    }

    /// Adds the eight bits of `byte` (least significant first) to channel
    /// `channel`, appending the samples they complete to `out`.
    pub fn push_dsd_byte(&mut self, channel: usize, byte: u8, out: &mut Vec<i32>)
        requires
            old(self).wf(),
            channel < old(self).tallies().len(),
        ensures
            final(self).wf(),
            final(self).tallies() == old(self).tallies().update(
                channel as int,
                tally_byte_from(old(self).tallies()[channel as int], byte, 0).0,
            ),
            samples_view(final(out)@) == samples_view(old(out)@) + tally_byte_from(
                old(self).tallies()[channel as int],
                byte,
                0,
            ).1,
    {
        let ghost start = self.tallies();
        let ghost out_start = samples_view(out@);
        let mut i: u8 = 0;
        while i < 8
            invariant
                self.wf(),
                channel < self.sums@.len(),
                i <= 8,
                self.tallies().len() == start.len(),
                forall|c: int| 0 <= c < start.len() && c != channel ==> self.tallies()[c] == start[c],
                tally_byte_from(start[channel as int], byte, 0) == ({
                    let (last, rest) = tally_byte_from(self.tallies()[channel as int], byte, i);
                    (last, samples_view(out@).skip(out_start.len() as int) + rest)
                }),
                samples_view(out@).take(out_start.len() as int) == out_start,
                samples_view(out@).len() >= out_start.len(),
            decreases 8 - i,
        {
            let bit = (byte >> i) & 1u8;
            let sum = self.sums[channel];
            let count = self.counts[channel];
            assert(self.tallies()[channel as int] == ChannelTally { sum: sum as int, count: count as nat });
            let new_sum: i32 = if bit == 1u8 {
                sum + 1
            } else {
                sum - 1
            };
            let new_count = count + 1;
            let ghost before_out = samples_view(out@);
            if new_count >= DSD_TO_PCM_DECIMATION_BITS {
                out.push(new_sum);
                self.sums.set(channel, 0);
                self.counts.set(channel, 0);
                assert(samples_view(out@) =~= before_out.push(new_sum as int));
                assert(samples_view(out@).skip(out_start.len() as int) =~= before_out.skip(
                    out_start.len() as int,
                ) + seq![new_sum as int]);
                assert(samples_view(out@).take(out_start.len() as int) =~= before_out.take(
                    out_start.len() as int,
                ));
            } else {
                self.sums.set(channel, new_sum);
                self.counts.set(channel, new_count);
            }
            assert forall|c: int| 0 <= c < start.len() && c != channel implies self.tallies()[c]
                == start[c] by {}
            i += 1;
        }
        assert(samples_view(out@) =~= out_start + samples_view(out@).skip(out_start.len() as int));
        assert(self.tallies() =~= start.update(channel as int, tally_byte_from(start[channel as int], byte, 0).0));
    }

    /// The number of channels.
    pub fn channel_count(&self) -> (r: usize)
        requires
            self.wf(),
        ensures
            r == self.tallies().len(),
    {
        self.sums.len()
    }

    /// Runs interleaved bytes through the channels (see `tally_frames`),
    /// appending the samples they complete to `out`.
    pub fn push_frames(&mut self, interleaved: &[u8], out: &mut Vec<i32>)
        requires
            old(self).wf(),
        ensures
            final(self).wf(),
            final(self).tallies() == tally_frames(
                old(self).tallies(),
                interleaved@,
                old(self).tallies().len(),
            ).0,
            samples_view(final(out)@) == samples_view(old(out)@) + tally_frames(
                old(self).tallies(),
                interleaved@,
                old(self).tallies().len(),
            ).1,
    {
        let channels = self.sums.len();
        let ghost start = self.tallies();
        let ghost out_start = samples_view(out@);
        let ghost total = tally_frames(start, interleaved@, channels as nat);
        if channels == 0 {
            return;
        }
        let n = interleaved.len();
        let mut pos: usize = 0;
        assert(interleaved@.skip(0) =~= interleaved@);
        while n - pos >= channels
            invariant
                n == interleaved@.len(),
                self.wf(),
                channels == self.sums@.len() == self.tallies().len(),
                channels > 0,
                pos <= interleaved@.len(),
                total == tally_frames(start, interleaved@, channels as nat),
                samples_view(out@).take(out_start.len() as int) == out_start,
                samples_view(out@).len() >= out_start.len(),
                total == ({
                    let (last, rest) = tally_frames(self.tallies(), interleaved@.skip(pos as int), channels as nat);
                    (last, samples_view(out@).skip(out_start.len() as int) + rest)
                }),
            decreases interleaved@.len() - pos,
        {
            let ghost here = interleaved@.skip(pos as int);
            let ghost frame = here.take(channels as int);
            let ghost frame_start = self.tallies();
            let ghost out_frame = samples_view(out@);
            assert(here.skip(channels as int) =~= interleaved@.skip(pos + channels));
            let mut c: usize = 0;
            while c < channels
                invariant
                    self.wf(),
                    channels == self.sums@.len() == self.tallies().len(),
                    c <= channels,
                    n == interleaved@.len(),
                    pos + channels <= n,
                    frame == interleaved@.skip(pos as int).take(channels as int),
                    samples_view(out@).take(out_frame.len() as int) == out_frame,
                    samples_view(out@).len() >= out_frame.len(),
                    tally_frame(frame_start, frame, 0) == ({
                        let (last, rest) = tally_frame(self.tallies(), frame, c as int);
                        (last, samples_view(out@).skip(out_frame.len() as int) + rest)
                    }),
                decreases channels - c,
            {
                assert(frame[c as int] == interleaved@[pos + c]);
                let ghost before = samples_view(out@);
                let ghost tallies_before = self.tallies();
                self.push_dsd_byte(c, interleaved[pos + c], out);
                assert(self.tallies().len() == tallies_before.len());
                assert(samples_view(out@).skip(out_frame.len() as int) =~= before.skip(
                    out_frame.len() as int,
                ) + tally_byte_from(tallies_before[c as int], frame[c as int], 0).1);
                assert(samples_view(out@).take(out_frame.len() as int) =~= before.take(
                    out_frame.len() as int,
                ));
                c += 1;
            }
            assert(samples_view(out@).skip(out_start.len() as int) =~= out_frame.skip(
                out_start.len() as int,
            ) + samples_view(out@).skip(out_frame.len() as int));
            assert(samples_view(out@).take(out_start.len() as int) =~= out_frame.take(
                out_start.len() as int,
            ));
            pos = pos + channels;
        }
        assert(samples_view(out@) =~= out_start + samples_view(out@).skip(out_start.len() as int));
    }
}

/// Samples as numbers.
pub open spec fn samples_view(samples: Seq<i32>) -> Seq<int> {
    samples.map_values(|s: i32| s as int)
}


/// A tally is consistent: fewer than 64 bits counted, and a sum within the
/// count.
pub open spec fn consistent_tally(t: ChannelTally) -> bool {
    t.count < DSD_TO_PCM_DECIMATION_BITS && -(t.count as int) <= t.sum <= t.count
}

/// Whether every sample lies within `-64..=64`.
pub open spec fn samples_in_range(samples: Seq<int>) -> bool {
    forall|k: int| 0 <= k < samples.len() ==> -64 <= #[trigger] samples[k] <= 64
}

proof fn lemma_tally_byte(t: ChannelTally, byte: u8, i: u8)
    requires
        consistent_tally(t),
    ensures
        consistent_tally(tally_byte_from(t, byte, i).0),
        samples_in_range(tally_byte_from(t, byte, i).1),
    decreases 8 - i,
{
    if i < 8 {
        let (next, sample) = tally_bit(t, bit_set(byte, i));
        lemma_tally_byte(next, byte, (i + 1) as u8);
        let rest = tally_byte_from(next, byte, (i + 1) as u8).1;
        if let Some(s) = sample {
            assert forall|k: int| 0 <= k < (seq![s] + rest).len() implies -64 <= #[trigger] (seq![s] + rest)[k] <= 64 by {
                if k > 0 {
                    assert((seq![s] + rest)[k] == rest[k - 1]);
                }
            }
        }
    }
}

proof fn lemma_tally_frame(tallies: Seq<ChannelTally>, frame: Seq<u8>, c: int)
    requires
        forall|k: int| 0 <= k < tallies.len() ==> consistent_tally(#[trigger] tallies[k]),
    ensures
        tally_frame(tallies, frame, c).0.len() == tallies.len(),
        forall|k: int| 0 <= k < tally_frame(tallies, frame, c).0.len() ==> consistent_tally(
            #[trigger] tally_frame(tallies, frame, c).0[k],
        ),
        samples_in_range(tally_frame(tallies, frame, c).1),
    decreases frame.len() - c,
{
    if !(c < 0 || c >= frame.len() || c >= tallies.len()) {
        let (t, samples) = tally_byte_from(tallies[c], frame[c], 0);
        lemma_tally_byte(tallies[c], frame[c], 0);
        let updated = tallies.update(c, t);
        lemma_tally_frame(updated, frame, c + 1);
        let rest = tally_frame(updated, frame, c + 1).1;
        assert forall|k: int| 0 <= k < (samples + rest).len() implies -64 <= #[trigger] (samples + rest)[k] <= 64 by {
            if k < samples.len() {
                assert((samples + rest)[k] == samples[k]);
            } else {
                assert((samples + rest)[k] == rest[k - samples.len()]);
            }
        }
    }
}

/// Decimation keeps every tally consistent, and every sample it completes
/// lies within `-64..=64` (a PCM value within `-1..=1`).
pub proof fn law_dsd_samples_stay_in_range(tallies: Seq<ChannelTally>, bytes: Seq<u8>, channels: nat)
    requires
        channels == tallies.len(),
        forall|k: int| 0 <= k < tallies.len() ==> consistent_tally(#[trigger] tallies[k]),
    ensures
        tally_frames(tallies, bytes, channels).0.len() == tallies.len(),
        forall|k: int|
            0 <= k < tallies.len() ==> consistent_tally(#[trigger] tally_frames(tallies, bytes, channels).0[k]),
        samples_in_range(tally_frames(tallies, bytes, channels).1),
    decreases bytes.len(),
{
    if !(channels == 0 || bytes.len() < channels) {
        let frame = bytes.take(channels as int);
        lemma_tally_frame(tallies, frame, 0);
        let (after, first) = tally_frame(tallies, frame, 0);
        law_dsd_samples_stay_in_range(after, bytes.skip(channels as int), channels);
        let rest = tally_frames(after, bytes.skip(channels as int), channels).1;
        assert forall|k: int| 0 <= k < (first + rest).len() implies -64 <= #[trigger] (first + rest)[k] <= 64 by {
            if k < first.len() {
                assert((first + rest)[k] == first[k]);
            } else {
                assert((first + rest)[k] == rest[k - first.len()]);
            }
        }
    }
}

} // verus!
