//! The container of a waveform file: a sequence of tagged chunks, of which
//! one describes the sample format and one holds the sample bytes.

use super::number::{le_u16, le_u16_spec, le_u32, le_u32_spec};
use vstd::prelude::*;
use vstd::slice::slice_subrange;

verus! {

/// Why a byte sequence is not a waveform that this library reads.
#[derive(Clone, Copy, Debug, PartialEq, Eq, Structural)]
pub enum FormatError {
    /// The bytes end inside the file header or inside a chunk.
    Truncated,
    /// The file header does not carry the two tags of a waveform file.
    NotRiffWave,
    /// The format chunk is shorter than the format description.
    InvalidFormatChunk,
    /// The sample bytes come before any format description.
    MissingFormat,
    /// The chunks end without any sample bytes.
    MissingData,
    /// The channel count is neither 1 nor 2.
    InvalidChannel,
    /// The bit depth is neither 16 nor 24.
    InvalidBitDepth,
}

impl FormatError {
    /// The sentence that names the fault.
    pub open spec fn message_spec(&self) -> Seq<char> {
        match self {
            FormatError::Truncated => "truncated container"@,
            FormatError::NotRiffWave => "not a waveform container"@,
            FormatError::InvalidFormatChunk => "invalid format chunk"@,
            FormatError::MissingFormat => "missing format chunk"@,
            FormatError::MissingData => "missing data chunk"@,
            FormatError::InvalidChannel => "invalid channel"@,
            FormatError::InvalidBitDepth => "invalid bit depth"@,
        }
    }

    /// A sentence that names the fault.
    pub fn message(&self) -> (message: String)
        ensures
            message@ == self.message_spec(),
    {
        match self {
            FormatError::Truncated => "truncated container".to_string(),
            FormatError::NotRiffWave => "not a waveform container".to_string(),
            FormatError::InvalidFormatChunk => "invalid format chunk".to_string(),
            FormatError::MissingFormat => "missing format chunk".to_string(),
            FormatError::MissingData => "missing data chunk".to_string(),
            FormatError::InvalidChannel => "invalid channel".to_string(),
            FormatError::InvalidBitDepth => "invalid bit depth".to_string(),
        }
    }
}

/// The description of the samples, as the format chunk gives it.
#[derive(Clone, Copy, Debug, PartialEq, Eq, Structural)]
pub struct Format {
    pub id: u16,
    pub channels: u16,
    pub samplerate: u32,
    pub byterate: u32,
    pub blockalign: u16,
    pub bitswidth: u16,
}

/// The sample bytes, as the data chunk holds them.
#[derive(Debug)]
pub struct Data {
    pub data: Vec<u8>,
}

/// A container taken apart: the format description and the sample bytes.
#[derive(Debug)]
pub struct Wave {
    pub format: Format,
    pub data: Data,
}

pub open spec fn tag_riff() -> Seq<u8> {
    seq![0x52u8, 0x49u8, 0x46u8, 0x46u8]
}

pub open spec fn tag_wave() -> Seq<u8> {
    seq![0x57u8, 0x41u8, 0x56u8, 0x45u8]
}

pub open spec fn tag_fmt() -> Seq<u8> {
    seq![0x66u8, 0x6du8, 0x74u8, 0x20u8]
}

pub open spec fn tag_data() -> Seq<u8> {
    seq![0x64u8, 0x61u8, 0x74u8, 0x61u8]
}

/// Length of the file header: a tag, a size and a second tag.
pub const FILE_HEADER_LEN: usize = 12;

/// Length of a chunk header: a tag and a size.
pub const CHUNK_HEADER_LEN: usize = 8;

/// Length of the format description inside the format chunk.
pub const FORMAT_LEN: usize = 16;

/// The format description that stands at `at`.
pub open spec fn format_at(b: Seq<u8>, at: int) -> Format {
    Format {
        id: le_u16_spec(b.skip(at)) as u16,
        channels: le_u16_spec(b.skip(at + 2)) as u16,
        samplerate: le_u32_spec(b.skip(at + 4)) as u32,
        byterate: le_u32_spec(b.skip(at + 8)) as u32,
        blockalign: le_u16_spec(b.skip(at + 12)) as u16,
        bitswidth: le_u16_spec(b.skip(at + 14)) as u16,
    }
}

/// Where the chunk after the one at `at` begins: chunks are aligned to
/// even offsets, so a body of odd size is followed by one byte of padding.
pub open spec fn next_chunk(at: int, size: int) -> int {
    at + CHUNK_HEADER_LEN + size + size % 2
}

/// What the chunks from `at` on hold, `format` being the last format
/// description seen before `at`.
pub open spec fn chunks_from(b: Seq<u8>, at: int, format: Option<Format>) -> Result<
    (Format, Seq<u8>),
    FormatError,
>
    decreases b.len() + 1 - at,
{
    let size = le_u32_spec(b.skip(at + 4));
    let body = at + CHUNK_HEADER_LEN;
    if at < 0 || at + CHUNK_HEADER_LEN > b.len() {
        Err(FormatError::MissingData)
    } else if body + size > b.len() {
        Err(FormatError::Truncated)
    } else if b.subrange(at, at + 4) == tag_fmt() {
        if size < FORMAT_LEN {
            Err(FormatError::InvalidFormatChunk)
        } else {
            chunks_from(b, next_chunk(at, size), Some(format_at(b, body)))
        }
    } else if b.subrange(at, at + 4) == tag_data() {
        match format {
            Some(f) => Ok((f, b.subrange(body, body + size))),
            None => Err(FormatError::MissingFormat),
        }
    } else {
        chunks_from(b, next_chunk(at, size), format)
    }
}

/// What a container holds: the last format description that precedes the
/// first data chunk, and that chunk's bytes.
pub open spec fn container_spec(b: Seq<u8>) -> Result<(Format, Seq<u8>), FormatError> {
    if b.len() < FILE_HEADER_LEN {
        Err(FormatError::Truncated)
    } else if b.subrange(0, 4) != tag_riff() || b.subrange(8, 12) != tag_wave() {
        Err(FormatError::NotRiffWave)
    } else {
        chunks_from(b, FILE_HEADER_LEN as int, None)
    }
}

/// Whether the four bytes at `at` are `t0 t1 t2 t3`.
fn tag_is(i: &[u8], at: usize, t0: u8, t1: u8, t2: u8, t3: u8) -> (same: bool)
    requires
        at + 4 <= i@.len(),
    ensures
        same == (i@.subrange(at as int, at + 4) == seq![t0, t1, t2, t3]),
{
    let same = i[at] == t0 && i[at + 1] == t1 && i[at + 2] == t2 && i[at + 3] == t3;
    proof {
        let s = i@.subrange(at as int, at + 4);
        let t = seq![t0, t1, t2, t3];
        if same {
            assert(s =~= t);
        } else {
            assert(s[0] == i@[at as int] && s[1] == i@[at + 1] && s[2] == i@[at + 2] && s[3]
                == i@[at + 3]);
            assert(t[0] == t0 && t[1] == t1 && t[2] == t2 && t[3] == t3);
        }
    }
    same
}

/// Reads the format description at `at`.
fn read_format(i: &[u8], at: usize) -> (r: Result<Format, FormatError>)
    requires
        at + FORMAT_LEN <= i@.len(),
    ensures
        r == Ok::<Format, FormatError>(format_at(i@, at as int)),
{
    let rest = slice_subrange(i, at, i.len());
    assert(rest@ =~= i@.skip(at as int));
    let (rest, id) = match le_u16(rest) {
        Ok(o) => o,
        Err(_) => {
            return Err(FormatError::Truncated);
        },
    };
    assert(rest@ =~= i@.skip(at + 2));
    let (rest, channels) = match le_u16(rest) {
        Ok(o) => o,
        Err(_) => {
            return Err(FormatError::Truncated);
        },
    };
    assert(rest@ =~= i@.skip(at + 4));
    let (rest, samplerate) = match le_u32(rest) {
        Ok(o) => o,
        Err(_) => {
            return Err(FormatError::Truncated);
        },
    };
    assert(rest@ =~= i@.skip(at + 8));
    let (rest, byterate) = match le_u32(rest) {
        Ok(o) => o,
        Err(_) => {
            return Err(FormatError::Truncated);
        },
    };
    assert(rest@ =~= i@.skip(at + 12));
    let (rest, blockalign) = match le_u16(rest) {
        Ok(o) => o,
        Err(_) => {
            return Err(FormatError::Truncated);
        },
    };
    assert(rest@ =~= i@.skip(at + 14));
    let (_, bitswidth) = match le_u16(rest) {
        Ok(o) => o,
        Err(_) => {
            return Err(FormatError::Truncated);
        },
    };
    Ok(Format { id, channels, samplerate, byterate, blockalign, bitswidth })
}

/// The result of a parse with the bytes of the data chunk as a sequence.
pub open spec fn parsed_view(r: Result<Wave, FormatError>) -> Result<
    (Format, Seq<u8>),
    FormatError,
> {
    match r {
        Ok(w) => Ok((w.format, w.data.data@)),
        Err(e) => Err(e),
    }
}

impl Wave {
    /// Takes a container apart.
    ///
    /// Fails when the bytes are no container, when the container ends
    /// early, and when it holds no sample bytes or describes no format
    /// before them.
    pub fn parse(i: &[u8]) -> (r: Result<Wave, FormatError>)
        ensures
            parsed_view(r) == container_spec(i@),
    {
        if i.len() < FILE_HEADER_LEN {
            return Err(FormatError::Truncated);
        }
        if !tag_is(i, 0, 0x52, 0x49, 0x46, 0x46) || !tag_is(i, 8, 0x57, 0x41, 0x56, 0x45) {
            return Err(FormatError::NotRiffWave);
        }
        let mut at: usize = FILE_HEADER_LEN;
        let mut format: Option<Format> = None;
        loop
            invariant
                at <= i@.len(),
                container_spec(i@) == chunks_from(i@, at as int, format),
            decreases i@.len() - at,
        {
            if i.len() - at < CHUNK_HEADER_LEN {
                return Err(FormatError::MissingData);
            }
            let after_tag = slice_subrange(i, at + 4, i.len());
            assert(after_tag@ =~= i@.skip(at + 4));
            let size: usize = match le_u32(after_tag) {
                Ok(o) => o.1 as usize,
                Err(_) => {
                    return Err(FormatError::Truncated);
                },
            };
            let body: usize = at + CHUNK_HEADER_LEN;
            if size > i.len() - body {
                return Err(FormatError::Truncated);
            }
            let padded: usize = if size % 2 == 1 && size < i.len() - body {
                size + 1
            } else {
                size
            };
            if tag_is(i, at, 0x66, 0x6d, 0x74, 0x20) {
                if size < FORMAT_LEN {
                    return Err(FormatError::InvalidFormatChunk);
                }
                match read_format(i, body) {
                    Ok(f) => {
                        format = Some(f);
                    },
                    Err(e) => {
                        return Err(e);
                    },
                }
            } else if tag_is(i, at, 0x64, 0x61, 0x74, 0x61) {
                match format {
                    Some(f) => {
                        let bytes = slice_subrange(i, body, body + size);
                        let mut data: Vec<u8> = Vec::new();
                        data.extend_from_slice(bytes);
                        assert(data@ =~= i@.subrange(body as int, body + size));
                        return Ok(Wave { format: f, data: Data { data } });
                    },
                    None => {
                        return Err(FormatError::MissingFormat);
                    },
                }
            }
            proof {
                if size % 2 == 1 && padded == size {
                    lemma_chunks_past_the_end(i@, next_chunk(at as int, size as int), format);
                    lemma_chunks_past_the_end(i@, body + padded, format);
                }
            }
            at = body + padded;
        }
    }
}

/// Past the last byte that leaves room for a chunk header, no chunk is found.
pub proof fn lemma_chunks_past_the_end(b: Seq<u8>, at: int, format: Option<Format>)
    requires
        at + CHUNK_HEADER_LEN > b.len(),
    ensures
        chunks_from(b, at, format) == Err::<(Format, Seq<u8>), FormatError>(
            FormatError::MissingData,
        ),
{
}

} // verus!
