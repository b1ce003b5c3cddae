use toid::data::wave::parsed;
use toid::data::wave::{Data, FormatError, Wave};

fn container(channels: u16, bits: u16, rate: u32, samples: &[u8]) -> Vec<u8> {
    let mut b: Vec<u8> = Vec::new();
    b.extend_from_slice(b"RIFF");
    b.extend_from_slice(&((36 + samples.len()) as u32).to_le_bytes());
    b.extend_from_slice(b"WAVE");
    b.extend_from_slice(b"fmt ");
    b.extend_from_slice(&16u32.to_le_bytes());
    b.extend_from_slice(&1u16.to_le_bytes());
    b.extend_from_slice(&channels.to_le_bytes());
    b.extend_from_slice(&rate.to_le_bytes());
    b.extend_from_slice(&(rate * (bits as u32 / 8) * channels as u32).to_le_bytes());
    b.extend_from_slice(&((bits / 8) * channels).to_le_bytes());
    b.extend_from_slice(&bits.to_le_bytes());
    b.extend_from_slice(b"data");
    b.extend_from_slice(&(samples.len() as u32).to_le_bytes());
    b.extend_from_slice(samples);
    b
}

fn samples_16(values: &[i16]) -> Vec<u8> {
    let mut b = Vec::new();
    for v in values {
        b.extend_from_slice(&v.to_le_bytes());
    }
    b
}

fn stereo(wave: &Wave) -> (&Vec<i32>, &Vec<i32>) {
    match &wave.data {
        Data::Stereo(channels) => (&channels.0, &channels.1),
        Data::Monoral(_) => panic!("a stereo wave was expected"),
    }
}

fn mono(wave: &Wave) -> &Vec<i32> {
    match &wave.data {
        Data::Monoral(channel) => channel,
        Data::Stereo(_) => panic!("a mono wave was expected"),
    }
}

#[test]
fn parse_stereo_16_bit() {
    let bytes = container(2, 16, 44100, &samples_16(&[1, -1, 32767, -32768, 256, -2]));
    let wave = Wave::parse(&bytes).unwrap();
    assert_eq!(wave.sample_num, 3);
    assert_eq!(wave.sample_rate, 44100);
    let (left, right) = stereo(&wave);
    assert_eq!(left, &vec![255, 8355585, 65280]);
    assert_eq!(right, &vec![-255, -8355840, -510]);
}

#[test]
fn parse_mono_24_bit() {
    let samples = [0x01, 0x00, 0x00, 0xff, 0xff, 0xff, 0x00, 0x00, 0x80, 0xff, 0xff, 0x7f];
    let wave = Wave::parse(&container(1, 24, 48000, &samples)).unwrap();
    assert_eq!(wave.sample_num, 4);
    assert_eq!(wave.sample_rate, 48000);
    assert_eq!(mono(&wave), &vec![1, -1, -8388608, 8388607]);
}

#[test]
fn parse_drops_an_incomplete_last_sample() {
    let mut samples = samples_16(&[5, 6, 7, 8]);
    samples.push(0x11);
    let wave = Wave::parse(&container(2, 16, 8000, &samples)).unwrap();
    assert_eq!(wave.sample_num, 2);
    let (left, right) = stereo(&wave);
    assert_eq!(left, &vec![5 * 255, 7 * 255]);
    assert_eq!(right, &vec![6 * 255, 8 * 255]);
}

#[test]
fn parse_full_scale_is_one() {
    let wave = Wave::parse(&container(1, 16, 8000, &samples_16(&[32767]))).unwrap();
    assert_eq!(mono(&wave)[0], toid::data::wave::own::FULL_SCALE);
    assert_eq!(mono(&wave)[0] as f32 / toid::data::wave::own::FULL_SCALE as f32, 1.0);
}

#[test]
fn parse_skips_other_chunks_and_their_padding() {
    let mut b: Vec<u8> = Vec::new();
    b.extend_from_slice(b"RIFF");
    b.extend_from_slice(&0u32.to_le_bytes());
    b.extend_from_slice(b"WAVE");
    b.extend_from_slice(b"LIST");
    b.extend_from_slice(&3u32.to_le_bytes());
    b.extend_from_slice(&[1, 2, 3, 0]);
    b.extend_from_slice(b"fmt ");
    b.extend_from_slice(&18u32.to_le_bytes());
    b.extend_from_slice(&1u16.to_le_bytes());
    b.extend_from_slice(&1u16.to_le_bytes());
    b.extend_from_slice(&22050u32.to_le_bytes());
    b.extend_from_slice(&44100u32.to_le_bytes());
    b.extend_from_slice(&2u16.to_le_bytes());
    b.extend_from_slice(&16u16.to_le_bytes());
    b.extend_from_slice(&[0, 0]);
    b.extend_from_slice(b"data");
    b.extend_from_slice(&4u32.to_le_bytes());
    b.extend_from_slice(&samples_16(&[10, -10]));
    b.extend_from_slice(b"tail");
    let wave = Wave::parse(&b).unwrap();
    assert_eq!(wave.sample_rate, 22050);
    assert_eq!(mono(&wave), &vec![2550, -2550]);
}

#[test]
fn parsed_container_holds_format_and_bytes() {
    let bytes = container(2, 16, 44100, &[1, 2, 3, 4]);
    let parsed = parsed::Wave::parse(&bytes).unwrap();
    assert_eq!(
        parsed.format,
        parsed::Format {
            id: 1,
            channels: 2,
            samplerate: 44100,
            byterate: 176400,
            blockalign: 4,
            bitswidth: 16,
        }
    );
    assert_eq!(parsed.data.data, vec![1, 2, 3, 4]);
}

#[test]
fn parse_reads_numbers_low_byte_first() {
    let bytes = container(1, 16, 0x01020304, &[0x34, 0x12]);
    let wave = Wave::parse(&bytes).unwrap();
    assert_eq!(wave.sample_rate, 0x01020304);
    assert_eq!(mono(&wave), &vec![0x1234 * 255]);
}

#[test]
fn parse_rejects_a_short_header() {
    assert_eq!(Wave::parse(b"RIFF").err(), Some(FormatError::Truncated));
    assert_eq!(Wave::parse(&[]).err(), Some(FormatError::Truncated));
}

#[test]
fn parse_rejects_other_tags() {
    let mut bytes = container(1, 16, 8000, &[0, 0]);
    bytes[0] = b'X';
    assert_eq!(Wave::parse(&bytes).err(), Some(FormatError::NotRiffWave));
    let mut bytes = container(1, 16, 8000, &[0, 0]);
    bytes[11] = b'X';
    assert_eq!(Wave::parse(&bytes).err(), Some(FormatError::NotRiffWave));
}

#[test]
fn parse_rejects_a_chunk_that_ends_early() {
    let mut bytes = container(1, 16, 8000, &[0, 0, 0, 0]);
    bytes.truncate(bytes.len() - 1);
    assert_eq!(Wave::parse(&bytes).err(), Some(FormatError::Truncated));
}

#[test]
fn parse_rejects_a_short_format_chunk() {
    let mut b: Vec<u8> = Vec::new();
    b.extend_from_slice(b"RIFF");
    b.extend_from_slice(&0u32.to_le_bytes());
    b.extend_from_slice(b"WAVE");
    b.extend_from_slice(b"fmt ");
    b.extend_from_slice(&8u32.to_le_bytes());
    b.extend_from_slice(&[0; 8]);
    assert_eq!(Wave::parse(&b).err(), Some(FormatError::InvalidFormatChunk));
}

#[test]
fn parse_rejects_samples_without_format() {
    let mut b: Vec<u8> = Vec::new();
    b.extend_from_slice(b"RIFF");
    b.extend_from_slice(&0u32.to_le_bytes());
    b.extend_from_slice(b"WAVE");
    b.extend_from_slice(b"data");
    b.extend_from_slice(&2u32.to_le_bytes());
    b.extend_from_slice(&[0, 0]);
    assert_eq!(Wave::parse(&b).err(), Some(FormatError::MissingFormat));
}

#[test]
fn parse_rejects_a_container_without_samples() {
    let bytes = container(1, 16, 8000, &[]);
    let without_data = &bytes[..36];
    assert_eq!(Wave::parse(without_data).err(), Some(FormatError::MissingData));
}

#[test]
fn parse_rejects_other_channel_counts() {
    assert_eq!(
        Wave::parse(&container(3, 16, 8000, &[0; 6])).err(),
        Some(FormatError::InvalidChannel)
    );
    assert_eq!(
        Wave::parse(&container(0, 16, 8000, &[0; 6])).err(),
        Some(FormatError::InvalidChannel)
    );
}

#[test]
fn parse_rejects_other_bit_depths() {
    assert_eq!(
        Wave::parse(&container(1, 8, 8000, &[0; 6])).err(),
        Some(FormatError::InvalidBitDepth)
    );
    assert_eq!(
        Wave::parse(&container(2, 32, 8000, &[0; 8])).err(),
        Some(FormatError::InvalidBitDepth)
    );
}

#[test]
fn parse_names_the_channel_count_before_the_bit_depth() {
    assert_eq!(
        Wave::parse(&container(5, 8, 8000, &[0; 6])).err(),
        Some(FormatError::InvalidChannel)
    );
}

#[test]
fn parse_reads_a_wave_without_sample_rate() {
    let wave = Wave::parse(&container(2, 16, 0, &samples_16(&[1, 2, 3, 4]))).unwrap();
    assert_eq!(wave.sample_rate, 0);
    assert_eq!(wave.sample_num, 2);
    let (left, right) = stereo(&wave);
    assert_eq!(left, &vec![255, 765]);
    assert_eq!(right, &vec![510, 1020]);
    let written = wave.to_riff_buffer();
    assert_eq!(written, container(2, 16, 0, &samples_16(&[1, 2, 3, 4])));
    assert_eq!(&written[24..32], &[0u8; 8][..]);
}

#[test]
fn format_errors_have_messages() {
    assert_eq!(FormatError::InvalidChannel.message(), "invalid channel");
    assert_eq!(FormatError::InvalidBitDepth.message(), "invalid bit depth");
    assert_eq!(FormatError::Truncated.message(), "truncated container");
}

#[test]
fn get_samples_inside_the_wave() {
    let wave = Wave::parse(&container(2, 16, 44100, &samples_16(&[1, 2, 3, 4, 5, 6]))).unwrap();
    let (left, right) = wave.get_samples(1, 3).unwrap();
    assert_eq!(left, vec![3 * 255, 5 * 255]);
    assert_eq!(right, vec![4 * 255, 6 * 255]);
}

#[test]
fn get_samples_pads_with_silence() {
    let wave = Wave::parse(&container(2, 16, 44100, &samples_16(&[1, 2, 3, 4, 5, 6]))).unwrap();
    let (left, right) = wave.get_samples(2, 6).unwrap();
    assert_eq!(left, vec![5 * 255, 0, 0, 0]);
    assert_eq!(right, vec![6 * 255, 0, 0, 0]);
    let (left, right) = wave.get_samples(10, 13).unwrap();
    assert_eq!(left, vec![0, 0, 0]);
    assert_eq!(right, vec![0, 0, 0]);
    let (left, right) = wave.get_samples(2, 2).unwrap();
    assert_eq!(left.len(), 0);
    assert_eq!(right.len(), 0);
}

#[test]
fn get_samples_gives_a_mono_wave_twice() {
    let wave = Wave::parse(&container(1, 16, 44100, &samples_16(&[7, 8, 9]))).unwrap();
    let (left, right) = wave.get_samples(1, 5).unwrap();
    assert_eq!(left, vec![8 * 255, 9 * 255, 0, 0]);
    assert_eq!(right, left);
}

#[test]
fn to_riff_buffer_writes_the_container() {
    let wave = Wave {
        data: Data::Stereo((vec![255, -255], vec![8355585, -8355840])),
        sample_num: 2,
        sample_rate: 44100,
    };
    let expected = container(2, 16, 44100, &samples_16(&[1, 32767, -1, -32768]));
    assert_eq!(wave.to_riff_buffer(), expected);
}

#[test]
fn to_riff_buffer_writes_a_mono_container() {
    let wave = Wave { data: Data::Monoral(vec![510, 0, -765]), sample_num: 3, sample_rate: 8000 };
    let expected = container(1, 16, 8000, &samples_16(&[2, 0, -3]));
    assert_eq!(wave.to_riff_buffer(), expected);
}

#[test]
fn to_riff_buffer_rounds_towards_zero_and_clips() {
    let wave = Wave {
        data: Data::Monoral(vec![254, -254, 256, -256, 9000000, -9000000, i32::MAX, i32::MIN]),
        sample_num: 8,
        sample_rate: 8000,
    };
    let bytes = wave.to_riff_buffer();
    assert_eq!(&bytes[44..], &samples_16(&[0, 0, 1, -1, 32767, -32768, 32767, -32768])[..]);
}

#[test]
fn round_trip_of_16_bit_stereo() {
    let bytes = container(2, 16, 44100, &samples_16(&[0, 1, -1, 2, 32767, -32768, 12345, -54]));
    let first = Wave::parse(&bytes).unwrap();
    let written = first.to_riff_buffer();
    assert_eq!(written, bytes);
    let second = Wave::parse(&written).unwrap();
    assert_eq!(second.sample_num, first.sample_num);
    assert_eq!(second.sample_rate, first.sample_rate);
    assert_eq!(stereo(&second), stereo(&first));
}

#[test]
fn round_trip_of_24_bit_loses_the_low_bits() {
    let samples = [0xff, 0x00, 0x00, 0xfe, 0x01, 0x00, 0x01, 0xff, 0xff];
    let first = Wave::parse(&container(1, 24, 44100, &samples)).unwrap();
    assert_eq!(mono(&first), &vec![255, 510, -255]);
    let second = Wave::parse(&first.to_riff_buffer()).unwrap();
    assert_eq!(second.sample_num, 3);
    assert_eq!(second.sample_rate, 44100);
    assert_eq!(mono(&second), &vec![255, 510, -255]);
    let rough = Wave::parse(&container(1, 24, 44100, &[0x00, 0x01, 0x00])).unwrap();
    assert_eq!(mono(&rough), &vec![256]);
    let back = Wave::parse(&rough.to_riff_buffer()).unwrap();
    assert_eq!(mono(&back), &vec![255]);
}

#[test]
fn change_sample_rate_to_half() {
    for m in [0usize, 1, 2, 3, 10, 11, 101, 1000] {
        let wave = Wave {
            data: Data::Stereo((vec![0; m], vec![0; m])),
            sample_num: m,
            sample_rate: 44100,
        };
        assert_eq!(wave.sample_rate as f32, 44100.0);
        let sample_num = wave.sample_num;
        let wave = wave.change_sample_rate(22050);
        assert_eq!(wave.sample_rate as f32, 22050.0);
        assert!(wave.sample_num as f32 >= sample_num as f32 / 2.0 - 0.5);
        assert!(wave.sample_num as f32 <= sample_num as f32 / 2.0 + 0.5);
        let (left, right) = stereo(&wave);
        assert_eq!(left.len(), wave.sample_num);
        assert_eq!(right.len(), wave.sample_num);
    }
}

#[test]
fn change_sample_rate_counts_the_positions_before_the_last_sample() {
    let wave = Wave { data: Data::Monoral(vec![0; 100]), sample_num: 100, sample_rate: 44100 };
    assert_eq!(wave.change_sample_rate(22050).sample_num, 50);
    assert_eq!(wave.change_sample_rate(44100).sample_num, 99);
    assert_eq!(wave.change_sample_rate(88200).sample_num, 198);
    assert_eq!(wave.change_sample_rate(441000).sample_num, 990);
    assert_eq!(wave.change_sample_rate(1).sample_num, 1);
    assert_eq!(wave.change_sample_rate(30000).sample_num, 68);
}

#[test]
fn change_sample_rate_reads_between_the_samples() {
    let wave = Wave {
        data: Data::Stereo((vec![0, 100, 200, 300], vec![0, -100, 50, -7])),
        sample_num: 4,
        sample_rate: 2,
    };
    let doubled = wave.change_sample_rate(4);
    assert_eq!(doubled.sample_rate, 4);
    assert_eq!(doubled.sample_num, 6);
    let (left, right) = stereo(&doubled);
    assert_eq!(left, &vec![0, 50, 100, 150, 200, 250]);
    assert_eq!(right, &vec![0, -50, -100, -25, 50, 21]);
    let by_three = wave.change_sample_rate(3);
    assert_eq!(mono_or_left(&by_three), vec![0, 66, 133, 200, 266]);
}

fn mono_or_left(wave: &Wave) -> Vec<i32> {
    match &wave.data {
        Data::Monoral(channel) => channel.clone(),
        Data::Stereo(channels) => channels.0.clone(),
    }
}

#[test]
fn change_sample_rate_keeps_a_mono_wave_mono() {
    let wave = Wave { data: Data::Monoral(vec![10, 20, 30]), sample_num: 3, sample_rate: 10 };
    let same = wave.change_sample_rate(10);
    assert_eq!(mono(&same), &vec![10, 20]);
    assert_eq!(same.sample_num, 2);
}

#[test]
fn test_parse() {
    let buffers = [
        container(1, 16, 44100, &samples_16(&[0, 1000, -1000, 32767])),
        container(2, 16, 44100, &samples_16(&[0, 1000, -1000, 32767])),
        container(1, 24, 48000, &[0, 0, 0, 1, 2, 3, 0xff, 0xff, 0xff]),
        container(2, 24, 48000, &[0, 0, 0, 1, 2, 3, 0xff, 0xff, 0xff, 3, 2, 1]),
    ];
    for buffer in buffers.iter() {
        let buffer = buffer.as_slice();

        Wave::parse(buffer).unwrap();
    }
}

#[test]
fn test_change_sample_rate() {
    let samples: Vec<i16> = (0..2001).map(|i| (i * 7 % 3000) as i16).collect();
    let buffer = container(2, 16, 44100, &samples_16(&samples));
    let buffer = buffer.as_slice();

    let wave = Wave::parse(buffer).unwrap();

    assert_eq!(wave.sample_rate as f32, 44100.0);

    let sample_num = wave.sample_num;

    let wave = wave.change_sample_rate(22050);

    assert_eq!(wave.sample_rate as f32, 22050.0);

    assert!(wave.sample_num as f32 >= sample_num as f32 / 2.0 - 0.5);
    assert!(wave.sample_num as f32 <= sample_num as f32 / 2.0 + 0.5);
}

#[test]
fn test_to_riff_buffer() {
    let buffer = container(1, 24, 44100, &[0, 0, 0, 1, 2, 3, 0xff, 0xff, 0xff]);
    let buffer = buffer.as_slice();
    let wave = Wave::parse(buffer).unwrap();

    Wave::parse(wave.to_riff_buffer().as_slice()).unwrap();
}

#[test]
fn change_sample_rate_to_none_reads_the_first_sample_only() {
    let wave = Wave {
        data: Data::Stereo((vec![7, 8, 9], vec![-7, -8, -9])),
        sample_num: 3,
        sample_rate: 44100,
    };
    let still = wave.change_sample_rate(0);
    assert_eq!(still.sample_rate, 0);
    assert_eq!(still.sample_num, 1);
    assert_eq!(stereo(&still), (&vec![7], &vec![-7]));
    let one = Wave { data: Data::Monoral(vec![7]), sample_num: 1, sample_rate: 44100 };
    assert_eq!(one.change_sample_rate(0).sample_num, 0);
}
