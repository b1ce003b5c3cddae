//! What reading back a written container gives.

use super::number::{
    i16_le_bytes, le_i16_spec, le_u16_spec, le_u32_spec, lemma_i16_round_trip,
    lemma_u16_round_trip, lemma_u32_round_trip, u16_le_bytes, u32_le_bytes,
};
use super::encode::{
    data_header_spec, file_header_spec, format_chunk_spec, pcm_len, pcm_spec, quantize_16,
    riff_spec, size_field,
};
use super::own::{channel_of, decode_spec, parse_spec, sample_at, STEP_16};
use super::parsed::{
    chunks_from, container_spec, format_at, tag_data, tag_fmt, tag_riff, tag_wave, Format,
    FormatError,
};
use vstd::prelude::*;

verus! {

/// A channel as it is read back after it was written at 16 bits: every
/// sample is rounded towards zero to a whole number of steps, and kept
/// within 16 bits.
pub open spec fn requantized(v: Seq<i32>) -> Seq<i32> {
    Seq::new(v.len(), |k: int| (quantize_16(v[k] as int) * STEP_16) as i32)
}

/// The format description that is written for a wave.
pub open spec fn written_format(channels: int, sample_rate: int) -> Format {
    Format {
        id: 1,
        channels: channels as u16,
        samplerate: sample_rate as u32,
        byterate: size_field(sample_rate * 2 * channels) as u32,
        blockalign: (2 * channels) as u16,
        bitswidth: 16,
    }
}

/// What the file header written holds.
pub proof fn lemma_file_header(channels: int, sample_num: int)
    ensures
        file_header_spec(channels, sample_num).len() == 12,
        file_header_spec(channels, sample_num).subrange(0, 4) == tag_riff(),
        file_header_spec(channels, sample_num).subrange(8, 12) == tag_wave(),
{
    let h = file_header_spec(channels, sample_num);
    assert(h.subrange(0, 4) =~= tag_riff());
    assert(h.subrange(8, 12) =~= tag_wave());
}

/// What the format chunk written holds.
pub proof fn lemma_format_chunk(channels: int, sample_rate: int)
    requires
        channels == 1 || channels == 2,
        0 <= sample_rate < 0x1_0000_0000,
    ensures
        format_chunk_spec(channels, sample_rate).len() == 24,
        format_chunk_spec(channels, sample_rate).subrange(0, 4) == tag_fmt(),
        le_u32_spec(format_chunk_spec(channels, sample_rate).skip(4)) == 16,
        format_at(format_chunk_spec(channels, sample_rate), 8) == written_format(
            channels,
            sample_rate,
        ),
{
    let c = format_chunk_spec(channels, sample_rate);
    let byte_rate = size_field(sample_rate * 2 * channels);
    lemma_u32_round_trip(16);
    lemma_u32_round_trip(sample_rate);
    lemma_u32_round_trip(byte_rate);
    lemma_u16_round_trip(1);
    lemma_u16_round_trip(channels);
    lemma_u16_round_trip(2 * channels);
    lemma_u16_round_trip(16);
    assert(c.len() == 24);
    assert(c.subrange(0, 4) =~= tag_fmt());
    assert(c.skip(4).take(4) =~= u32_le_bytes(16));
    assert(c.skip(8).take(2) =~= u16_le_bytes(1));
    assert(c.skip(10).take(2) =~= u16_le_bytes(channels));
    assert(c.skip(12).take(4) =~= u32_le_bytes(sample_rate));
    assert(c.skip(16).take(4) =~= u32_le_bytes(byte_rate));
    assert(c.skip(20).take(2) =~= u16_le_bytes(2 * channels));
    assert(c.skip(22).take(2) =~= u16_le_bytes(16));
    lemma_number_at(c, 4);
    lemma_number_at(c, 8);
    lemma_number_at(c, 10);
    lemma_number_at(c, 12);
    lemma_number_at(c, 16);
    lemma_number_at(c, 20);
    lemma_number_at(c, 22);
}

/// What the header of the data chunk written holds.
pub proof fn lemma_data_header(channels: int, sample_num: int)
    requires
        0 <= pcm_len(channels, sample_num) < 0x1_0000_0000,
    ensures
        data_header_spec(channels, sample_num).len() == 8,
        data_header_spec(channels, sample_num).subrange(0, 4) == tag_data(),
        le_u32_spec(data_header_spec(channels, sample_num).skip(4)) == pcm_len(
            channels,
            sample_num,
        ),
{
    let h = data_header_spec(channels, sample_num);
    lemma_u32_round_trip(pcm_len(channels, sample_num));
    assert(h.subrange(0, 4) =~= tag_data());
    assert(h.skip(4) =~= u32_le_bytes(pcm_len(channels, sample_num)));
}

/// A number is spelled by the bytes where it stands, whatever follows them.
pub proof fn lemma_number_at(b: Seq<u8>, at: int)
    requires
        0 <= at,
        at + 4 <= b.len() || at + 2 <= b.len(),
    ensures
        at + 2 <= b.len() ==> le_u16_spec(b.skip(at)) == le_u16_spec(b.skip(at).take(2)),
        at + 4 <= b.len() ==> le_u32_spec(b.skip(at)) == le_u32_spec(b.skip(at).take(4)),
{
}

/// A number inside a part of a byte sequence is the number at the same
/// place of the whole.
pub proof fn lemma_number_in_part(whole: Seq<u8>, part: Seq<u8>, offset: int, at: int)
    requires
        0 <= offset,
        0 <= at,
        offset + part.len() <= whole.len(),
        whole.subrange(offset, offset + part.len()) == part,
    ensures
        at + 2 <= part.len() ==> le_u16_spec(whole.skip(offset + at)) == le_u16_spec(
            part.skip(at),
        ),
        at + 4 <= part.len() ==> le_u32_spec(whole.skip(offset + at)) == le_u32_spec(
            part.skip(at),
        ),
{
    let s = whole.subrange(offset, offset + part.len());
    if at + 2 <= part.len() {
        assert(s[at] == whole[offset + at]);
        assert(s[at + 1] == whole[offset + at + 1]);
    }
    if at + 4 <= part.len() {
        assert(s[at + 2] == whole[offset + at + 2]);
        assert(s[at + 3] == whole[offset + at + 3]);
    }
}

/// Where the parts of a written container stand in it.
pub proof fn lemma_written_layout(
    left: Seq<i32>,
    right: Seq<i32>,
    channels: int,
    sample_rate: int,
)
    requires
        channels == 1 || channels == 2,
        0 <= sample_rate < 0x1_0000_0000,
        left.len() == right.len(),
        pcm_len(channels, left.len() as int) < 0x1_0000_0000,
    ensures
        ({
            let b = riff_spec(left, right, channels, sample_rate);
            let len = pcm_len(channels, left.len() as int);
            &&& 0 <= len
            &&& b.len() == 44 + len
            &&& b.subrange(0, 4) == tag_riff()
            &&& b.subrange(8, 12) == tag_wave()
            &&& b.subrange(12, 16) == tag_fmt()
            &&& le_u32_spec(b.skip(16)) == 16
            &&& format_at(b, 20) == written_format(channels, sample_rate)
            &&& b.subrange(36, 40) == tag_data()
            &&& le_u32_spec(b.skip(40)) == len
            &&& b.subrange(44, 44 + len) == pcm_spec(left, right, channels)
        }),
{
    let n = left.len() as int;
    let len = pcm_len(channels, n);
    let pcm = pcm_spec(left, right, channels);
    let fh = file_header_spec(channels, n);
    let fc = format_chunk_spec(channels, sample_rate);
    let dh = data_header_spec(channels, n);
    let b = fh + fc + dh + pcm;
    assert(0 <= len) by (nonlinear_arith)
        requires
            len == 2 * channels * n,
            channels >= 1,
            n >= 0,
    ;
    lemma_file_header(channels, n);
    lemma_format_chunk(channels, sample_rate);
    lemma_data_header(channels, n);
    assert(pcm.len() == len);
    assert(b.len() == 44 + len);
    assert(b.subrange(12, 36) =~= fc);
    assert(b.subrange(36, 44) =~= dh);
    assert(b.subrange(44, 44 + len) =~= pcm);
    assert(b.subrange(0, 4) =~= fh.subrange(0, 4));
    assert(b.subrange(8, 12) =~= fh.subrange(8, 12));
    assert(b.subrange(12, 16) =~= fc.subrange(0, 4));
    assert(b.subrange(36, 40) =~= dh.subrange(0, 4));
    lemma_number_in_part(b, fc, 12, 4);
    lemma_number_in_part(b, fc, 12, 8);
    lemma_number_in_part(b, fc, 12, 10);
    lemma_number_in_part(b, fc, 12, 12);
    lemma_number_in_part(b, fc, 12, 16);
    lemma_number_in_part(b, fc, 12, 20);
    lemma_number_in_part(b, fc, 12, 22);
    lemma_number_in_part(b, dh, 36, 4);
}

/// A container that holds nothing but a format chunk of 16 bytes and,
/// right after it, a data chunk, is taken apart into that description and
/// those bytes.
pub proof fn lemma_plain_container(b: Seq<u8>, format: Format, samples: Seq<u8>)
    requires
        b.len() == 44 + samples.len(),
        b.subrange(0, 4) == tag_riff(),
        b.subrange(8, 12) == tag_wave(),
        b.subrange(12, 16) == tag_fmt(),
        le_u32_spec(b.skip(16)) == 16,
        format_at(b, 20) == format,
        b.subrange(36, 40) == tag_data(),
        le_u32_spec(b.skip(40)) == samples.len(),
        b.subrange(44, 44 + samples.len() as int) == samples,
    ensures
        container_spec(b) == Ok::<(Format, Seq<u8>), FormatError>((format, samples)),
{
    assert(tag_data() != tag_fmt()) by {
        assert(tag_data()[0] != tag_fmt()[0]);
    }
    assert(chunks_from(b, 36, Some(format)) == Ok::<(Format, Seq<u8>), FormatError>(
        (format, samples),
    ));
    assert(chunks_from(b, 12, None) == chunks_from(b, 36, Some(format)));
}

/// The container written for a wave is taken apart again into the format
/// description that was written and the sample bytes that were written.
pub proof fn lemma_written_container(
    left: Seq<i32>,
    right: Seq<i32>,
    channels: int,
    sample_rate: int,
)
    requires
        channels == 1 || channels == 2,
        0 <= sample_rate < 0x1_0000_0000,
        left.len() == right.len(),
        pcm_len(channels, left.len() as int) < 0x1_0000_0000,
    ensures
        container_spec(riff_spec(left, right, channels, sample_rate)) == Ok::<
            (Format, Seq<u8>),
            FormatError,
        >((written_format(channels, sample_rate), pcm_spec(left, right, channels))),
{
    lemma_written_layout(left, right, channels, sample_rate);
    lemma_plain_container(
        riff_spec(left, right, channels, sample_rate),
        written_format(channels, sample_rate),
        pcm_spec(left, right, channels),
    );
}

/// The sample bytes written are read back, at 16 bits, as the channels
/// that were written, requantized.
pub proof fn lemma_written_samples(left: Seq<i32>, right: Seq<i32>, channels: int)
    requires
        channels == 1 || channels == 2,
        left.len() == right.len(),
    ensures
        channel_of(pcm_spec(left, right, channels), 16, channels, 0) == requantized(left),
        channel_of(pcm_spec(left, right, channels), 16, channels, channels - 1) == requantized(
            if channels == 1 {
                left
            } else {
                right
            },
        ),
{
    let pcm = pcm_spec(left, right, channels);
    let n = left.len() as int;
    let other = if channels == 1 {
        left
    } else {
        right
    };
    let first = channel_of(pcm, 16, channels, 0);
    let last = channel_of(pcm, 16, channels, channels - 1);
    assert(16int / 8 == 2);
    if channels == 1 {
        assert(pcm.len() == 2 * n);
        assert(pcm.len() as int / 2 / 1 == n);
    } else {
        assert(pcm.len() == 4 * n);
        assert(pcm.len() as int / 2 / 2 == n);
    }
    assert(first.len() == n);
    assert(last.len() == n);
    assert forall|k: int| 0 <= k < n implies first[k] == requantized(left)[k] && last[k]
        == requantized(other)[k] by {
        lemma_i16_round_trip(quantize_16(left[k] as int));
        lemma_i16_round_trip(quantize_16(other[k] as int));
        if channels == 1 {
            let at = 2 * k;
            assert(pcm.skip(at)[0] == pcm[at] && pcm.skip(at)[1] == pcm[at + 1]);
            assert(pcm.skip(at).take(2) =~= i16_le_bytes(quantize_16(left[k] as int)));
            assert(le_i16_spec(pcm.skip(at)) == le_i16_spec(pcm.skip(at).take(2)));
        } else {
            let at = 2 * (2 * k);
            assert(pcm.skip(at)[0] == pcm[at] && pcm.skip(at)[1] == pcm[at + 1]);
            assert(pcm.skip(at).take(2) =~= i16_le_bytes(quantize_16(left[k] as int)));
            assert(le_i16_spec(pcm.skip(at)) == le_i16_spec(pcm.skip(at).take(2)));
            let at = 2 * (2 * k + 1);
            assert(pcm.skip(at)[0] == pcm[at] && pcm.skip(at)[1] == pcm[at + 1]);
            assert(pcm.skip(at).take(2) =~= i16_le_bytes(quantize_16(right[k] as int)));
            assert(le_i16_spec(pcm.skip(at)) == le_i16_spec(pcm.skip(at).take(2)));
        }
    }
    assert(first =~= requantized(left));
    assert(last =~= requantized(other));
}

/// A wave that was written parses, and what is read back is the wave that
/// was written, requantized: the same number of channels and of samples,
/// and the same sample rate.  This holds wherever the sample bytes number
/// less than 2^32, so that their size fits its field.
pub proof fn law_written_wave_parses(
    left: Seq<i32>,
    right: Seq<i32>,
    channels: int,
    sample_rate: int,
)
    requires
        channels == 1 || channels == 2,
        0 <= sample_rate < 0x1_0000_0000,
        left.len() == right.len(),
        pcm_len(channels, left.len() as int) < 0x1_0000_0000,
    ensures
        parse_spec(riff_spec(left, right, channels, sample_rate)) == Ok::<
            (Seq<i32>, Seq<i32>, u32),
            FormatError,
        >(
            (
                requantized(left),
                requantized(
                    if channels == 1 {
                        left
                    } else {
                        right
                    },
                ),
                sample_rate as u32,
            ),
        ),
        requantized(left).len() == left.len(),
{
    lemma_written_container(left, right, channels, sample_rate);
    lemma_written_samples(left, right, channels);
}

/// The sample bytes of a container that is taken apart number less than 2^32.
pub proof fn lemma_chunk_size(b: Seq<u8>, at: int, format: Option<Format>)
    requires
        chunks_from(b, at, format) is Ok,
    ensures
        chunks_from(b, at, format)->Ok_0.1.len() < 0x1_0000_0000,
    decreases b.len() + 1 - at,
{
    let size = le_u32_spec(b.skip(at + 4));
    let body = at + 8;
    if b.subrange(at, at + 4) == tag_fmt() {
        lemma_chunk_size(b, at + 8 + size + size % 2, Some(format_at(b, body)));
    } else if b.subrange(at, at + 4) == tag_data() {
    } else {
        lemma_chunk_size(b, at + 8 + size + size % 2, format);
    }
}

/// A sample that was read at 16 bits is written and read back unchanged.
pub proof fn lemma_sample_16_survives(b: Seq<u8>, k: int)
    ensures
        quantize_16(sample_at(b, 16, k) as int) * STEP_16 == sample_at(b, 16, k),
{
    let q = le_i16_spec(b.skip(2 * k));
    assert(-32768 <= q < 32768);
    assert(sample_at(b, 16, k) == q * 255);
    if q >= 0 {
        vstd::arithmetic::div_mod::lemma_div_multiples_vanish(q, 255);
    } else {
        vstd::arithmetic::div_mod::lemma_div_multiples_vanish(-q, 255);
    }
}

/// What was decoded from samples of 16 bits is written and read back
/// unchanged, and takes no more bytes than it was decoded from.
pub proof fn lemma_decoded_16_survives(format: Format, bytes: Seq<u8>)
    requires
        decode_spec(format, bytes) is Ok,
        format.bitswidth == 16,
    ensures
        ({
            let wave = decode_spec(format, bytes)->Ok_0;
            &&& format.channels == 1 || format.channels == 2
            &&& wave.0.len() == wave.1.len()
            &&& pcm_len(format.channels as int, wave.0.len() as int) <= bytes.len()
            &&& requantized(wave.0) == wave.0
            &&& requantized(wave.1) == wave.1
            &&& format.channels == 1 ==> wave.0 == wave.1
        }),
{
    let wave = decode_spec(format, bytes)->Ok_0;
    let channels = format.channels as int;
    let n = wave.0.len() as int;
    assert(16int / 8 == 2);
    assert(n == bytes.len() as int / 2 / channels);
    if channels == 1 {
        assert(pcm_len(channels, n) == 2 * n);
    } else {
        assert(pcm_len(channels, n) == 4 * n);
    }
    assert forall|k: int| 0 <= k < n implies requantized(wave.0)[k] == wave.0[k] && requantized(
        wave.1,
    )[k] == wave.1[k] by {
        lemma_sample_16_survives(bytes, channels * k);
        lemma_sample_16_survives(bytes, channels * k + channels - 1);
    }
    assert(requantized(wave.0) =~= wave.0);
    assert(requantized(wave.1) =~= wave.1);
    if channels == 1 {
        assert(wave.0 =~= wave.1);
    }
}

/// Reading a container of 16-bit samples, writing the wave and reading
/// what was written gives the wave that was first read: the same samples
/// in the same channels, at the same sample rate.
pub proof fn law_round_trip_16_bit(b: Seq<u8>)
    requires
        parse_spec(b) is Ok,
        container_spec(b)->Ok_0.0.bitswidth == 16,
    ensures
        ({
            let wave = parse_spec(b)->Ok_0;
            let channels = container_spec(b)->Ok_0.0.channels as int;
            parse_spec(riff_spec(wave.0, wave.1, channels, wave.2 as int)) == parse_spec(b)
        }),
{
    let format = container_spec(b)->Ok_0.0;
    let bytes = container_spec(b)->Ok_0.1;
    let wave = parse_spec(b)->Ok_0;
    assert(parse_spec(b) == decode_spec(format, bytes));
    assert(bytes.len() < 0x1_0000_0000) by {
        lemma_chunk_size(b, 12, None);
    }
    lemma_decoded_16_survives(format, bytes);
    law_written_wave_parses(wave.0, wave.1, format.channels as int, wave.2 as int);
}

} // verus!
