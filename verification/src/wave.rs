use vstd::prelude::*;
use vstd::string::StrSliceExecFns;
use vstd::string::StringSliceAdditionalSpecFns;

use crate::introspection::Introspect;
use crate::output::EncoderIntrospection;

verus! {

broadcast use vstd::string::group_string_axioms;

/// A value of a wave header.
#[derive(Debug, Clone, Copy)]
pub enum WaveHeaderValue {
    Ascii(&'static str),
    TwoBytes(u16),
    FourBytes(u32),
}

/// The little-endian bytes of the value.
pub open spec fn value_bytes(value: WaveHeaderValue) -> Seq<u8> {
    match value {
        WaveHeaderValue::Ascii(text) => text.spec_bytes(),
        WaveHeaderValue::TwoBytes(x) => vstd::bytes::spec_u16_to_le_bytes(x),
        WaveHeaderValue::FourBytes(x) => vstd::bytes::spec_u32_to_le_bytes(x),
    }
}

impl WaveHeaderValue {
    pub fn to_bytes(self) -> (bytes: Vec<u8>)
        ensures
            bytes@ == value_bytes(self),
    {
        match self {
            WaveHeaderValue::Ascii(x) => x.as_bytes_vec(),
            WaveHeaderValue::TwoBytes(x) => vstd::bytes::u16_to_le_bytes(x),
            WaveHeaderValue::FourBytes(x) => vstd::bytes::u32_to_le_bytes(x),
        }
    }
}

/// The format of the PCM data a wave file holds.
#[derive(Debug, Clone)]
pub struct WaveHeader {
    pub channel_count: u16,
    pub sample_rate: u32,
    pub bit_depth: u16,
}

/// The largest chunk size, used because a live audio stream has no known length.
pub const STREAM_CHUNK_SIZE: u32 = 2147483647u32;

/// The bytes of the ASCII letters "RIFF", "WAVE", "fmt " and "data".
pub open spec fn riff_bytes() -> Seq<u8> {
    seq![82u8, 73u8, 70u8, 70u8]
}

pub open spec fn wave_bytes() -> Seq<u8> {
    seq![87u8, 65u8, 86u8, 69u8]
}

pub open spec fn fmt_bytes() -> Seq<u8> {
    seq![102u8, 109u8, 116u8, 32u8]
}

pub open spec fn data_bytes() -> Seq<u8> {
    seq![100u8, 97u8, 116u8, 97u8]
}

/// The 44 bytes of a canonical wave header for PCM data of the given format,
/// whose chunk sizes are the largest ones.
pub open spec fn header_bytes(channel_count: u16, sample_rate: u32, bit_depth: u16) -> Seq<u8> {
    let byte_rate = (sample_rate * channel_count * bit_depth / 8) as u32;
    let block_align = (channel_count * bit_depth / 8) as u16;
    riff_bytes() + vstd::bytes::spec_u32_to_le_bytes(STREAM_CHUNK_SIZE) + wave_bytes() + fmt_bytes()
        + vstd::bytes::spec_u32_to_le_bytes(16) + vstd::bytes::spec_u16_to_le_bytes(1)
        + vstd::bytes::spec_u16_to_le_bytes(channel_count) + vstd::bytes::spec_u32_to_le_bytes(sample_rate)
        + vstd::bytes::spec_u32_to_le_bytes(byte_rate) + vstd::bytes::spec_u16_to_le_bytes(block_align)
        + vstd::bytes::spec_u16_to_le_bytes(bit_depth) + data_bytes()
        + vstd::bytes::spec_u32_to_le_bytes(STREAM_CHUNK_SIZE)
}

proof fn lemma_ascii_bytes(text: &str)
    requires
        forall|i: int| 0 <= i < text@.len() ==> '\0' <= #[trigger] text@[i] <= '\u{7f}',
    ensures
        text.spec_bytes() == Seq::new(text@.len(), |i: int| text@[i] as u8),
{
    assert(vstd::string::is_ascii(text));
}

fn append_value(bytes: &mut Vec<u8>, value: WaveHeaderValue)
    ensures
        final(bytes)@ == old(bytes)@ + value_bytes(value),
{
    let mut encoded = value.to_bytes();
    bytes.append(&mut encoded);
}

impl WaveHeader {
    /// The format can be written: its byte rate and block alignment are computed without overflow.
    pub open spec fn fits(&self) -> bool {
        &&& self.sample_rate * self.channel_count <= u32::MAX
        &&& self.sample_rate * self.channel_count * self.bit_depth <= u32::MAX
        &&& self.channel_count * self.bit_depth <= u16::MAX
    }

    pub fn to_bytes(&self) -> (bytes: Vec<u8>)
        requires
            self.fits(),
        ensures
            bytes@ == header_bytes(self.channel_count, self.sample_rate, self.bit_depth),
    {
        proof {
            reveal_strlit("RIFF");
            reveal_strlit("WAVE");
            reveal_strlit("fmt ");
            reveal_strlit("data");
        }
        let num_channels = WaveHeaderValue::TwoBytes(self.channel_count);
        let sample_rate = WaveHeaderValue::FourBytes(self.sample_rate);

        let byte_rate = WaveHeaderValue::FourBytes(
            self.sample_rate * self.channel_count as u32 * self.bit_depth as u32 / 8,
        );

        let block_align = WaveHeaderValue::TwoBytes(self.channel_count * self.bit_depth / 8);
        let bits_per_sample = WaveHeaderValue::TwoBytes(self.bit_depth);

        let mut bytes: Vec<u8> = Vec::new();
        // ChunkID: the letters "RIFF"
        append_value(&mut bytes, WaveHeaderValue::Ascii("RIFF"));
        // ChunkSize: the largest one, because this is a live audio stream
        append_value(&mut bytes, WaveHeaderValue::FourBytes(STREAM_CHUNK_SIZE));
        // Format: the letters "WAVE"
        append_value(&mut bytes, WaveHeaderValue::Ascii("WAVE"));
        // Subchunk1ID: the letters "fmt "
        append_value(&mut bytes, WaveHeaderValue::Ascii("fmt "));
        // Subchunk1Size: 16 for PCM
        append_value(&mut bytes, WaveHeaderValue::FourBytes(16));
        // AudioFormat: PCM = 1
        append_value(&mut bytes, WaveHeaderValue::TwoBytes(1));
        append_value(&mut bytes, num_channels);
        append_value(&mut bytes, sample_rate);
        append_value(&mut bytes, byte_rate);
        append_value(&mut bytes, block_align);
        append_value(&mut bytes, bits_per_sample);
        // Subchunk2ID: the letters "data"
        append_value(&mut bytes, WaveHeaderValue::Ascii("data"));
        // Subchunk2Size: the largest one, because this is a live audio stream
        append_value(&mut bytes, WaveHeaderValue::FourBytes(STREAM_CHUNK_SIZE));
        proof {
            lemma_ascii_bytes("RIFF");
            assert("RIFF".spec_bytes() =~= riff_bytes());
            lemma_ascii_bytes("WAVE");
            assert("WAVE".spec_bytes() =~= wave_bytes());
            lemma_ascii_bytes("fmt ");
            assert("fmt ".spec_bytes() =~= fmt_bytes());
            lemma_ascii_bytes("data");
            assert("data".spec_bytes() =~= data_bytes());
            assert(bytes@ =~= header_bytes(self.channel_count, self.sample_rate, self.bit_depth));
        }
        bytes
    }
}

/// The little-endian bytes of 16-bit PCM samples.
pub open spec fn pcm_bytes(samples: Seq<i16>) -> Seq<u8>
    decreases samples.len(),
{
    if samples.len() == 0 {
        Seq::empty()
    } else {
        pcm_bytes(samples.drop_last()) + vstd::bytes::spec_u16_to_le_bytes(samples.last() as u16)
    }
}

/// Encodes samples into a .wav stream: a header, then 16-bit PCM data.
pub struct WaveEncoder {
    did_write_header: bool,
    encoded_bytes: Vec<u8>,
    header: WaveHeader,
}

impl WaveEncoder {
    pub closed spec fn wrote_header(&self) -> bool {
        self.did_write_header
    }

    pub closed spec fn pending(&self) -> Seq<u8> {
        self.encoded_bytes@
    }

    pub closed spec fn header(&self) -> WaveHeader {
        self.header
    }

    /// Creates an encoder of 16-bit samples of the given format.
    pub fn new(channel_count: usize, sample_rate: usize) -> (encoder: Self)
        ensures
            !encoder.wrote_header(),
            encoder.pending() == Seq::<u8>::empty(),
            encoder.header().channel_count == channel_count as u16,
            encoder.header().sample_rate == sample_rate as u32,
            encoder.header().bit_depth == 16,
    {
        let header = WaveHeader {
            channel_count: channel_count as u16,
            sample_rate: sample_rate as u32,
            bit_depth: 16,
        };

        WaveEncoder { did_write_header: false, encoded_bytes: Vec::new(), header }
    }

    pub fn content_type(&self) -> (content_type: String)
        ensures
            content_type@ == "audio/wav"@,
    {
        "audio/wav".to_string()
    }

    pub fn name() -> (name: String)
        ensures
            name@ == "WaveEncoder"@,
    {
        "WaveEncoder".to_string()
    }

    /// Encodes 16-bit samples.
    pub fn encode(&mut self, samples: &[i16])
        ensures
            final(self).pending() == old(self).pending() + pcm_bytes(samples@),
            final(self).wrote_header() == old(self).wrote_header(),
            final(self).header() == old(self).header(),
    {
        let mut index: usize = 0;
        while index < samples.len()
            invariant
                index <= samples@.len(),
                self.encoded_bytes@ == old(self).pending() + pcm_bytes(samples@.take(index as int)),
                self.did_write_header == old(self).wrote_header(),
                self.header == old(self).header(),
            decreases samples@.len() - index,
        {
            let mut encoded = vstd::bytes::u16_to_le_bytes(samples[index] as u16);
            self.encoded_bytes.append(&mut encoded);
            proof {
                assert(samples@.take(index + 1).drop_last() =~= samples@.take(index as int));
            }
            index = index + 1;
        }
        assert(samples@.take(samples@.len() as int) =~= samples@);
    }

    /// Consumes the bytes encoded so far, preceded by the header the first time.
    /// Returns nothing until there's data available.
    pub fn bytes(&mut self) -> (bytes: Option<Vec<u8>>)
        requires
            old(self).header().fits(),
        ensures
            old(self).pending().len() == 0 ==> bytes is None && *final(self) == *old(self),
            old(self).pending().len() > 0 ==> {
                let header = old(self).header();
                let prefix = if old(self).wrote_header() {
                    Seq::<u8>::empty()
                } else {
                    header_bytes(header.channel_count, header.sample_rate, header.bit_depth)
                };
                &&& bytes matches Some(bytes) && bytes@ == prefix + old(self).pending()
                &&& final(self).wrote_header()
                &&& final(self).pending() == Seq::<u8>::empty()
                &&& final(self).header() == header
            },
    {
        if self.encoded_bytes.len() == 0 {
            return None;
        }

        let mut bytes: Vec<u8> = Vec::new();
        if !self.did_write_header {
            let mut header_bytes = self.header.to_bytes();
            bytes.append(&mut header_bytes);
            self.did_write_header = true;
        }

        bytes.append(&mut self.encoded_bytes);
        Some(bytes)
    }
}

impl Introspect<EncoderIntrospection> for WaveEncoder {
    fn introspect(&self) -> (introspection: EncoderIntrospection)
        ensures
            introspection.name@ == "WaveEncoder"@,
            introspection.size == self.pending().len(),
    {
        EncoderIntrospection { name: Self::name(), size: self.encoded_bytes.len() }
    }
}

} // verus!
