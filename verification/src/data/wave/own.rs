//! Sampled audio: one or two channels of fixed-point samples.

use super::number::{le_i16, le_i16_spec, le_i24, le_i24_spec};
use super::parsed;
use super::parsed::FormatError;
use vstd::prelude::*;

verus! {

/// The sample value that stands for an amplitude of one.
///
/// It is the largest positive 16-bit sample times 255, the divisor by which
/// a 24-bit sample is scaled.  A 24-bit sample is therefore its own value,
/// and a 16-bit sample is worth `STEP_16` times its number.
pub const FULL_SCALE: i32 = 8355585;

/// The weight of one step of a 16-bit sample.
pub const STEP_16: i32 = 255;

/// The samples of a wave, channel by channel.
#[derive(Debug)]
pub enum Data {
    Monoral(Vec<i32>),
    Stereo((Vec<i32>, Vec<i32>)),
}

impl Data {
    /// The number of channels: 1 or 2.
    pub open spec fn channels(&self) -> int {
        match self {
            Data::Monoral(_) => 1,
            Data::Stereo(_) => 2,
        }
    }

    /// The samples heard on the left: the only channel of a mono wave.
    pub open spec fn left(&self) -> Seq<i32> {
        match self {
            Data::Monoral(data) => data@,
            Data::Stereo(data) => data.0@,
        }
    }

    /// The samples heard on the right: the only channel of a mono wave.
    pub open spec fn right(&self) -> Seq<i32> {
        match self {
            Data::Monoral(data) => data@,
            Data::Stereo(data) => data.1@,
        }
    }

    /// The number of channels.
    pub fn channel_count(&self) -> (n: u16)
        ensures
            n == self.channels(),
    {
        match self {
            Data::Monoral(_) => 1,
            Data::Stereo(_) => 2,
        }
    }
}

impl Clone for Data {
    fn clone(&self) -> (data: Self)
        ensures
            data.channels() == self.channels(),
            data.left() == self.left(),
            data.right() == self.right(),
    {
        match self {
            Data::Monoral(channel) => Data::Monoral(channel.clone()),
            Data::Stereo(channels) => Data::Stereo((channels.0.clone(), channels.1.clone())),
        }
    }
}

/// A wave: its samples, their number per channel, and the number of
/// samples that one second takes.
#[derive(Debug)]
pub struct Wave {
    pub data: Data,
    pub sample_num: usize,
    pub sample_rate: u32,
}

impl Clone for Wave {
    fn clone(&self) -> (wave: Self)
        ensures
            wave.data.channels() == self.data.channels(),
            wave.content() == self.content(),
            wave.sample_num == self.sample_num,
    {
        Wave { data: self.data.clone(), sample_num: self.sample_num, sample_rate: self.sample_rate }
    }
}

/// The value of the 16-bit sample number `k` of `b`.
pub open spec fn sample_16(b: Seq<u8>, k: int) -> int {
    le_i16_spec(b.skip(2 * k)) * STEP_16
}

/// The value of the 24-bit sample number `k` of `b`.
pub open spec fn sample_24(b: Seq<u8>, k: int) -> int {
    le_i24_spec(b.skip(3 * k))
}

/// The value of the sample number `k` of `b`, at a depth of 16 or 24 bits.
pub open spec fn sample_at(b: Seq<u8>, bits: int, k: int) -> i32 {
    if bits == 16 {
        sample_16(b, k) as i32
    } else {
        sample_24(b, k) as i32
    }
}

/// Channel `c` of the `channels` interleaved channels in `b`.
pub open spec fn channel_of(b: Seq<u8>, bits: int, channels: int, c: int) -> Seq<i32> {
    Seq::new(
        (b.len() as int / (bits / 8) / channels) as nat,
        |k: int| sample_at(b, bits, channels * k + c),
    )
}

/// What the sample bytes `b` of a container hold under the description `f`:
/// the left channel, the right channel and the sample rate.  For a mono
/// container both channels are the one it has.
pub open spec fn decode_spec(f: parsed::Format, b: Seq<u8>) -> Result<
    (Seq<i32>, Seq<i32>, u32),
    FormatError,
> {
    if f.channels != 1 && f.channels != 2 {
        Err(FormatError::InvalidChannel)
    } else if f.bitswidth != 16 && f.bitswidth != 24 {
        Err(FormatError::InvalidBitDepth)
    } else {
        Ok(
            (
                channel_of(b, f.bitswidth as int, f.channels as int, 0),
                channel_of(b, f.bitswidth as int, f.channels as int, f.channels - 1),
                f.samplerate,
            ),
        )
    }
}

/// What a container holds: see `decode_spec` and `parsed::container_spec`.
pub open spec fn parse_spec(b: Seq<u8>) -> Result<(Seq<i32>, Seq<i32>, u32), FormatError> {
    match parsed::container_spec(b) {
        Ok(p) => decode_spec(p.0, p.1),
        Err(e) => Err(e),
    }
}

/// The channel count of the wave in a container that parses.
pub open spec fn parse_channels(b: Seq<u8>) -> int {
    match parsed::container_spec(b) {
        Ok(p) => p.0.channels as int,
        Err(e) => 0,
    }
}

/// The samples of `v` from `start` up to `end`, with zero wherever `v` has
/// no sample.
pub open spec fn padded_range(v: Seq<i32>, start: int, end: int) -> Seq<i32> {
    Seq::new(
        (end - start) as nat,
        |i: int|
            if start + i < v.len() {
                v[start + i]
            } else {
                0i32
            },
    )
}

/// The samples of `v` from `start` up to `end`, padded with zeros.
fn copy_padded(v: &Vec<i32>, start: usize, end: usize) -> (out: Vec<i32>)
    requires
        start <= end,
    ensures
        out@ == padded_range(v@, start as int, end as int),
{
    let mut out: Vec<i32> = Vec::new();
    let mut i: usize = start;
    while i < end
        invariant
            start <= i <= end,
            out@ == padded_range(v@, start as int, i as int),
        decreases end - i,
    {
        let sample: i32 = if i < v.len() {
            v[i]
        } else {
            0
        };
        out.push(sample);
        i += 1;
        assert(out@ =~= padded_range(v@, start as int, i as int));
    }
    out
}

impl Wave {
    /// Every channel has `sample_num` samples.
    pub open spec fn wf(&self) -> bool {
        &&& self.data.left().len() == self.sample_num
        &&& self.data.right().len() == self.sample_num
    }

    /// The left channel, the right channel and the sample rate.
    pub open spec fn content(&self) -> (Seq<i32>, Seq<i32>, u32) {
        (self.data.left(), self.data.right(), self.sample_rate)
    }

    /// The outcome of a parse, as `parse_spec` gives it.
    pub open spec fn outcome(r: Result<Wave, FormatError>) -> Result<
        (Seq<i32>, Seq<i32>, u32),
        FormatError,
    > {
        match r {
            Ok(w) => Ok(w.content()),
            Err(e) => Err(e),
        }
    }

    /// Reads a wave from the bytes of a waveform container.
    ///
    /// Samples of 16 and of 24 bits are read, in one channel or in two
    /// interleaved ones.  Fails as `parsed::Wave::parse` does, and when
    /// the container has another channel count or bit depth.
    pub fn parse(i: &[u8]) -> (r: Result<Wave, FormatError>)
        ensures
            Self::outcome(r) == parse_spec(i@),
            r matches Ok(w) ==> w.wf() && w.data.channels() == parse_channels(i@),
    {
        match parsed::Wave::parse(i) {
            Ok(parsed_wave) => Self::parsed_wave_to_own_wave(parsed_wave),
            Err(e) => Err(e),
        }
    }

    /// Decodes the sample bytes of a container that was taken apart.
    ///
    /// Fails when the channel count is neither 1 nor 2, and else when the
    /// bit depth is neither 16 nor 24.  The wave has as many samples as
    /// the bytes hold whole samples for every channel.
    pub fn parsed_wave_to_own_wave(parsed_wave: parsed::Wave) -> (r: Result<Wave, FormatError>)
        ensures
            Self::outcome(r) == decode_spec(parsed_wave.format, parsed_wave.data.data@),
            r is Ok <==> (parsed_wave.format.channels == 1 || parsed_wave.format.channels == 2) && (
            parsed_wave.format.bitswidth == 16 || parsed_wave.format.bitswidth == 24),
            r matches Ok(w) ==> w.wf() && w.data.channels() == parsed_wave.format.channels
                && w.sample_rate == parsed_wave.format.samplerate && w.sample_num
                == parsed_wave.data.data@.len() as int / (parsed_wave.format.bitswidth as int / 8)
                / (parsed_wave.format.channels as int),
    {
        let format = parsed_wave.format;
        let bytes = parsed_wave.data.data.as_slice();
        if format.channels != 1 && format.channels != 2 {
            return Err(FormatError::InvalidChannel);
        }
        if format.bitswidth != 16 && format.bitswidth != 24 {
            return Err(FormatError::InvalidBitDepth);
        }
        let width: usize = format.bitswidth as usize / 8;
        proof {
            if format.bitswidth == 16 {
                assert(format.bitswidth as int / 8 == 2);
            } else {
                assert(format.bitswidth as int / 8 == 3);
            }
        }
        if format.channels == 1 {
            let sample_num = bytes.len() / width;
            assert(sample_num * (format.bitswidth as int / 8) <= bytes@.len()) by (nonlinear_arith)
                requires
                    width == format.bitswidth as int / 8,
                    width == 2 || width == 3,
                    sample_num == bytes@.len() as int / width as int,
            ;
            match Self::parse_monoral_data(bytes, sample_num, format.bitswidth as usize) {
                Ok(o) => {
                    assert(o.1.left() =~= channel_of(bytes@, format.bitswidth as int, 1, 0));
                    Ok(Wave { data: o.1, sample_num, sample_rate: format.samplerate })
                },
                Err(e) => Err(e),
            }
        } else {
            let sample_num = bytes.len() / width / 2;
            assert(2 * sample_num * (format.bitswidth as int / 8) <= bytes@.len())
                by (nonlinear_arith)
                requires
                    width == format.bitswidth as int / 8,
                    width == 2 || width == 3,
                    sample_num == bytes@.len() as int / width as int / 2,
            ;
            match Self::parse_stereo_data(bytes, sample_num, format.bitswidth as usize) {
                Ok(o) => {
                    assert(o.1.left() =~= channel_of(bytes@, format.bitswidth as int, 2, 0));
                    assert(o.1.right() =~= channel_of(bytes@, format.bitswidth as int, 2, 1));
                    Ok(Wave { data: o.1, sample_num, sample_rate: format.samplerate })
                },
                Err(e) => Err(e),
            }
        }
    }

    /// The samples from `start` up to `end` of both channels.
    ///
    /// Both sequences have `end - start` samples, whatever the wave holds:
    /// a mono wave gives its channel twice, and where the wave has no
    /// sample the value is zero.
    pub fn get_samples(&self, start: usize, end: usize) -> (r: Result<(Vec<i32>, Vec<i32>), String>)
        requires
            start <= end,
        ensures
            r matches Ok(o) && o.0@ == padded_range(self.data.left(), start as int, end as int)
                && o.1@ == padded_range(self.data.right(), start as int, end as int),
            r matches Ok(o) && o.0@.len() == end - start && o.1@.len() == end - start,
    {
        match &self.data {
            Data::Monoral(data) => {
                Ok((copy_padded(data, start, end), copy_padded(data, start, end)))
            },
            Data::Stereo(data) => {
                Ok((copy_padded(&data.0, start, end), copy_padded(&data.1, start, end)))
            },
        }
    }

    /// Reads one 16-bit sample from the head of `i`: its value and the
    /// bytes after it.
    fn parse_sample_16<'a>(i: &'a [u8], Ghost(all): Ghost<Seq<u8>>, Ghost(k): Ghost<int>) -> (r:
        Result<(&'a [u8], i32), FormatError>)
        requires
            0 <= k,
            2 * (k + 1) <= all.len(),
            i@ == all.skip(2 * k),
        ensures
            r matches Ok(o) && o.0@ == all.skip(2 * (k + 1)) && o.1 == sample_at(all, 16, k),
    {
        match le_i16(i) {
            Ok(o) => {
                assert(o.0@ =~= all.skip(2 * (k + 1)));
                Ok((o.0, o.1 as i32 * STEP_16))
            },
            Err(_) => Err(FormatError::Truncated),
        }
    }

    /// Reads one 24-bit sample from the head of `i`: its value and the
    /// bytes after it.
    fn parse_sample_24<'a>(i: &'a [u8], Ghost(all): Ghost<Seq<u8>>, Ghost(k): Ghost<int>) -> (r:
        Result<(&'a [u8], i32), FormatError>)
        requires
            0 <= k,
            3 * (k + 1) <= all.len(),
            i@ == all.skip(3 * k),
        ensures
            r matches Ok(o) && o.0@ == all.skip(3 * (k + 1)) && o.1 == sample_at(all, 24, k),
    {
        match le_i24(i) {
            Ok(o) => {
                assert(o.0@ =~= all.skip(3 * (k + 1)));
                Ok((o.0, o.1))
            },
            Err(_) => Err(FormatError::Truncated),
        }
    }

    /// Decodes the first `sample_num` samples of the one channel in `i`,
    /// and gives the bytes after them too.
    fn parse_monoral_data<'a>(i: &'a [u8], sample_num: usize, bit_num: usize) -> (r: Result<
        (&'a [u8], Data),
        FormatError,
    >)
        requires
            bit_num == 16 || bit_num == 24,
            sample_num * (bit_num / 8) <= i@.len(),
        ensures
            r matches Ok(o) && o.0@ == i@.skip(sample_num * (bit_num as int / 8)) && o.1 is Monoral
                && o.1.left().len() == sample_num && forall|k: int|
                0 <= k < sample_num ==> o.1.left()[k] == sample_at(i@, bit_num as int, k),
    {
        let mut data: Vec<i32> = Vec::new();
        let mut rest = i;
        let mut sample_idx: usize = 0;
        assert(rest@ =~= i@.skip(0));
        if bit_num == 16 {
            assert(bit_num as int / 8 == 2);
            assert(sample_num * (bit_num as int / 8) == 2 * sample_num) by (nonlinear_arith)
                requires
                    bit_num as int / 8 == 2,
            ;
            while sample_idx < sample_num
                invariant
                    2 * sample_num <= i@.len(),
                    sample_idx <= sample_num,
                    rest@ == i@.skip(2 * sample_idx),
                    data@.len() == sample_idx,
                    forall|k: int| 0 <= k < sample_idx ==> data@[k] == sample_at(i@, 16, k),
                decreases sample_num - sample_idx,
            {
                let ret = Self::parse_sample_16(rest, Ghost(i@), Ghost(sample_idx as int))?;
                rest = ret.0;
                data.push(ret.1);
                sample_idx += 1;
            }
        } else {
            assert(bit_num as int / 8 == 3);
            assert(sample_num * (bit_num as int / 8) == 3 * sample_num) by (nonlinear_arith)
                requires
                    bit_num as int / 8 == 3,
            ;
            while sample_idx < sample_num
                invariant
                    3 * sample_num <= i@.len(),
                    sample_idx <= sample_num,
                    rest@ == i@.skip(3 * sample_idx),
                    data@.len() == sample_idx,
                    forall|k: int| 0 <= k < sample_idx ==> data@[k] == sample_at(i@, 24, k),
                decreases sample_num - sample_idx,
            {
                let ret = Self::parse_sample_24(rest, Ghost(i@), Ghost(sample_idx as int))?;
                rest = ret.0;
                data.push(ret.1);
                sample_idx += 1;
            }
        }
        Ok((rest, Data::Monoral(data)))
    }

    /// Decodes the first `sample_num` samples of each of the two
    /// interleaved channels in `i`, and gives the bytes after them too.
    fn parse_stereo_data<'a>(i: &'a [u8], sample_num: usize, bit_num: usize) -> (r: Result<
        (&'a [u8], Data),
        FormatError,
    >)
        requires
            bit_num == 16 || bit_num == 24,
            2 * sample_num * (bit_num / 8) <= i@.len(),
        ensures
            r matches Ok(o) && o.0@ == i@.skip(2 * sample_num * (bit_num as int / 8)) && o.1
                is Stereo && o.1.left().len() == sample_num && o.1.right().len() == sample_num
                && forall|k: int|
                0 <= k < sample_num ==> o.1.left()[k] == sample_at(i@, bit_num as int, 2 * k)
                    && o.1.right()[k] == sample_at(i@, bit_num as int, 2 * k + 1),
    {
        let mut left_data: Vec<i32> = Vec::new();
        let mut right_data: Vec<i32> = Vec::new();
        let mut rest = i;
        let mut sample_idx: usize = 0;
        assert(rest@ =~= i@.skip(0));
        if bit_num == 16 {
            assert(bit_num as int / 8 == 2);
            assert(2 * sample_num * (bit_num as int / 8) == 4 * sample_num) by (nonlinear_arith)
                requires
                    bit_num as int / 8 == 2,
            ;
            while sample_idx < sample_num
                invariant
                    4 * sample_num <= i@.len(),
                    sample_idx <= sample_num,
                    rest@ == i@.skip(4 * sample_idx),
                    left_data@.len() == sample_idx,
                    right_data@.len() == sample_idx,
                    forall|k: int|
                        0 <= k < sample_idx ==> left_data@[k] == sample_at(i@, 16, 2 * k),
                    forall|k: int|
                        0 <= k < sample_idx ==> right_data@[k] == sample_at(i@, 16, 2 * k + 1),
                decreases sample_num - sample_idx,
            {
                let ret = Self::parse_sample_16(rest, Ghost(i@), Ghost(2 * sample_idx as int))?;
                rest = ret.0;
                left_data.push(ret.1);
                let ret = Self::parse_sample_16(rest, Ghost(i@), Ghost(2 * sample_idx + 1))?;
                rest = ret.0;
                right_data.push(ret.1);
                sample_idx += 1;
            }
        } else {
            assert(bit_num as int / 8 == 3);
            assert(2 * sample_num * (bit_num as int / 8) == 6 * sample_num) by (nonlinear_arith)
                requires
                    bit_num as int / 8 == 3,
            ;
            while sample_idx < sample_num
                invariant
                    6 * sample_num <= i@.len(),
                    sample_idx <= sample_num,
                    rest@ == i@.skip(6 * sample_idx),
                    left_data@.len() == sample_idx,
                    right_data@.len() == sample_idx,
                    forall|k: int|
                        0 <= k < sample_idx ==> left_data@[k] == sample_at(i@, 24, 2 * k),
                    forall|k: int|
                        0 <= k < sample_idx ==> right_data@[k] == sample_at(i@, 24, 2 * k + 1),
                decreases sample_num - sample_idx,
            {
                let ret = Self::parse_sample_24(rest, Ghost(i@), Ghost(2 * sample_idx as int))?;
                rest = ret.0;
                left_data.push(ret.1);
                let ret = Self::parse_sample_24(rest, Ghost(i@), Ghost(2 * sample_idx + 1))?;
                rest = ret.0;
                right_data.push(ret.1);
                sample_idx += 1;
            }
        }
        Ok((rest, Data::Stereo((left_data, right_data))))
    }
}

} // verus!
