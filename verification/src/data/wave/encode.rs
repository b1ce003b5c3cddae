//! A wave written as a waveform container of 16-bit samples.

use super::number::{
    i16_le_bytes, push_i16_le, push_u16_le, push_u32_le, u16_le_bytes, u32_le_bytes,
};
use super::own::{Data, Wave, STEP_16};
use super::parsed::{tag_data, tag_fmt, tag_riff, tag_wave};
use vstd::prelude::*;

verus! {

/// The 16-bit number written for a sample: its value in steps of
/// `STEP_16`, rounded towards zero and kept within 16 bits.
pub open spec fn quantize_16(v: int) -> int {
    let q = if v >= 0 {
        v / (STEP_16 as int)
    } else {
        -((-v) / (STEP_16 as int))
    };
    if q < -32768 {
        -32768
    } else if q > 32767 {
        32767
    } else {
        q
    }
}

/// The number of sample bytes written for `sample_num` samples in each of
/// `channels` channels.
pub open spec fn pcm_len(channels: int, sample_num: int) -> int {
    2 * channels * sample_num
}

/// What is written in a size field of 32 bits for a size of `n`.
pub open spec fn size_field(n: int) -> int {
    n % 0x1_0000_0000
}

/// The file header written: two tags around the size of all that follows.
pub open spec fn file_header_spec(channels: int, sample_num: int) -> Seq<u8> {
    tag_riff() + u32_le_bytes(size_field(36 + pcm_len(channels, sample_num))) + tag_wave()
}

/// The format chunk written: linear PCM of 16 bits.
pub open spec fn format_chunk_spec(channels: int, sample_rate: int) -> Seq<u8> {
    tag_fmt() + u32_le_bytes(16) + u16_le_bytes(1) + u16_le_bytes(channels) + u32_le_bytes(
        sample_rate,
    ) + u32_le_bytes(size_field(sample_rate * 2 * channels)) + u16_le_bytes(2 * channels)
        + u16_le_bytes(16)
}

/// The header of the data chunk written.
pub open spec fn data_header_spec(channels: int, sample_num: int) -> Seq<u8> {
    tag_data() + u32_le_bytes(size_field(pcm_len(channels, sample_num)))
}

/// The 44 bytes written before the samples.
pub open spec fn header_spec(channels: int, sample_rate: int, sample_num: int) -> Seq<u8> {
    file_header_spec(channels, sample_num) + format_chunk_spec(channels, sample_rate)
        + data_header_spec(channels, sample_num)
}

/// The sample bytes written: 16 bits for each sample, the channels of one
/// moment side by side.
pub open spec fn pcm_spec(left: Seq<i32>, right: Seq<i32>, channels: int) -> Seq<u8> {
    Seq::new(
        pcm_len(channels, left.len() as int) as nat,
        |j: int|
            i16_le_bytes(
                quantize_16(
                    if (j / 2) % channels == 0 {
                        left[j / (2 * channels)] as int
                    } else {
                        right[j / (2 * channels)] as int
                    },
                ),
            )[j % 2],
    )
}

/// The container written for a wave.
pub open spec fn riff_spec(left: Seq<i32>, right: Seq<i32>, channels: int, sample_rate: int) -> Seq<
    u8,
> {
    header_spec(channels, sample_rate, left.len() as int) + pcm_spec(left, right, channels)
}

/// Appends four bytes.
fn push_tag(buffer: &mut Vec<u8>, t0: u8, t1: u8, t2: u8, t3: u8)
    ensures
        final(buffer)@ == old(buffer)@ + seq![t0, t1, t2, t3],
{
    buffer.push(t0);
    buffer.push(t1);
    buffer.push(t2);
    buffer.push(t3);
    assert(buffer@ =~= old(buffer)@ + seq![t0, t1, t2, t3]);
}

/// The 16-bit number written for the sample `v`.
fn quantize(v: i32) -> (q: i16)
    ensures
        q == quantize_16(v as int),
{
    let steps: i32 = v / STEP_16;
    if steps < -32768 {
        -32768
    } else if steps > 32767 {
        32767
    } else {
        steps as i16
    }
}

impl Wave {
    /// The wave as a waveform container of 16-bit samples.
    ///
    /// Samples are written at 16 bits whatever depth they were read at.
    /// The size fields hold the sizes modulo 2^32.
    pub fn to_riff_buffer(&self) -> (buffer: Vec<u8>)
        requires
            self.wf(),
        ensures
            buffer@ == riff_spec(
                self.data.left(),
                self.data.right(),
                self.data.channels(),
                self.sample_rate as int,
            ),
    {
        let mut buffer: Vec<u8> = Vec::new();
        let channels: u16 = self.data.channel_count();
        let (data_size, byte_rate): (u128, u64) = if channels == 1 {
            (2 * (self.sample_num as u128), 2 * (self.sample_rate as u64))
        } else {
            (4 * (self.sample_num as u128), 4 * (self.sample_rate as u64))
        };
        assert(data_size == pcm_len(channels as int, self.sample_num as int)
            && byte_rate == self.sample_rate * 2 * channels) by (nonlinear_arith)
            requires
                channels == 1 || channels == 2,
                data_size == (if channels == 1 {
                    2 * self.sample_num
                } else {
                    4 * self.sample_num
                }),
                byte_rate == (if channels == 1 {
                    2 * self.sample_rate
                } else {
                    4 * self.sample_rate
                }),
        ;

        // head chunk
        push_tag(&mut buffer, 0x52, 0x49, 0x46, 0x46);
        push_u32_le(&mut buffer, ((36 + data_size) % 0x1_0000_0000) as u32);
        push_tag(&mut buffer, 0x57, 0x41, 0x56, 0x45);

        assert(buffer@ =~= file_header_spec(channels as int, self.sample_num as int));

        // format chunk
        push_tag(&mut buffer, 0x66, 0x6d, 0x74, 0x20);
        push_u32_le(&mut buffer, 16);
        push_u16_le(&mut buffer, 1);
        push_u16_le(&mut buffer, channels);
        push_u32_le(&mut buffer, self.sample_rate);
        push_u32_le(&mut buffer, (byte_rate % 0x1_0000_0000) as u32);
        push_u16_le(&mut buffer, 2 * channels);
        push_u16_le(&mut buffer, 16);

        assert(buffer@ =~= file_header_spec(channels as int, self.sample_num as int)
            + format_chunk_spec(channels as int, self.sample_rate as int));

        // data chunk
        push_tag(&mut buffer, 0x64, 0x61, 0x74, 0x61);
        push_u32_le(&mut buffer, (data_size % 0x1_0000_0000) as u32);

        let ghost header = header_spec(
            channels as int,
            self.sample_rate as int,
            self.sample_num as int,
        );
        assert(buffer@ =~= header);

        match &self.data {
            Data::Monoral(wave) => {
                let ghost pcm = pcm_spec(wave@, wave@, 1);
                let mut k: usize = 0;
                while k < wave.len()
                    invariant
                        k <= wave.len(),
                        pcm == pcm_spec(wave@, wave@, 1),
                        buffer@ == header + pcm.take(2 * k),
                    decreases wave.len() - k,
                {
                    push_i16_le(&mut buffer, quantize(wave[k]));
                    k += 1;
                    assert(buffer@ =~= header + pcm.take(2 * k));
                }
                assert(pcm.take(2 * k) =~= pcm);
            },
            Data::Stereo(waves) => {
                let ghost pcm = pcm_spec(waves.0@, waves.1@, 2);
                let mut k: usize = 0;
                while k < waves.0.len()
                    invariant
                        k <= waves.0.len(),
                        waves.0.len() == waves.1.len(),
                        pcm == pcm_spec(waves.0@, waves.1@, 2),
                        buffer@ == header + pcm.take(4 * k),
                    decreases waves.0.len() - k,
                {
                    push_i16_le(&mut buffer, quantize(waves.0[k]));
                    push_i16_le(&mut buffer, quantize(waves.1[k]));
                    k += 1;
                    assert(buffer@ =~= header + pcm.take(4 * k));
                }
                assert(pcm.take(4 * k) =~= pcm);
            },
        }
        buffer
    }
}

} // verus!
