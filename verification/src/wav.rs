//! The WAV container the pipeline hands between its stages: a fixed
//! 44-byte header declaring mono 16 kHz signed 16-bit little-endian PCM,
//! followed by the raw sample bytes.

use vstd::prelude::*;
use vstd::slice::slice_subrange;
use crate::pcm::PcmSink;
use crate::pcm::decode_pairs;
use crate::pcm::sample_of;

verus! {

/// Failure of a WAV container read back by the pipeline.
#[derive(Clone, Copy, Debug, PartialEq, Eq)]
pub enum WavError {
    /// The bytes are not a well-formed container of the canonical shape.
    MalformedHeader,
    /// The container is well formed but declares another format than
    /// mono 16 kHz signed 16-bit PCM.
    FormatMismatch,
}

/// Byte `k` (0 = lowest) of the little-endian 32-bit rendering of `x`.
pub open spec fn le32_0(x: int) -> u8 {
    (x % 256) as u8
}

pub open spec fn le32_1(x: int) -> u8 {
    ((x / 256) % 256) as u8
}

pub open spec fn le32_2(x: int) -> u8 {
    ((x / 65536) % 256) as u8
}

pub open spec fn le32_3(x: int) -> u8 {
    ((x / 16777216) % 256) as u8
}

/// The value of `s` read as an unsigned 16-bit integer (two's complement).
pub open spec fn sample_unsigned(s: i16) -> int {
    if s < 0 {
        s + 65536
    } else {
        s as int
    }
}

/// Low byte of the little-endian rendering of sample `s`.
pub open spec fn sample_lo(s: i16) -> u8 {
    (sample_unsigned(s) % 256) as u8
}

/// High byte of the little-endian rendering of sample `s`.
pub open spec fn sample_hi(s: i16) -> u8 {
    (sample_unsigned(s) / 256) as u8
}

/// The canonical 44-byte header for `n_samples` samples of mono 16 kHz
/// signed 16-bit PCM: RIFF/WAVE magic, a 16-byte `fmt ` chunk, and the
/// `data` chunk header.
pub open spec fn wav_header(n_samples: int) -> Seq<u8> {
    seq![
        0x52u8,
        0x49,
        0x46,
        0x46,
        le32_0(36 + 2 * n_samples),
        le32_1(36 + 2 * n_samples),
        le32_2(36 + 2 * n_samples),
        le32_3(36 + 2 * n_samples),
        0x57,
        0x41,
        0x56,
        0x45,
        0x66,
        0x6D,
        0x74,
        0x20,
        0x10,
        0x00,
        0x00,
        0x00,
        0x01,
        0x00,
        0x01,
        0x00,
        0x80,
        0x3E,
        0x00,
        0x00,
        0x00,
        0x7D,
        0x00,
        0x00,
        0x02,
        0x00,
        0x10,
        0x00,
        0x64,
        0x61,
        0x74,
        0x61,
        le32_0(2 * n_samples),
        le32_1(2 * n_samples),
        le32_2(2 * n_samples),
        le32_3(2 * n_samples),
    ]
}

/// The sample bytes: each sample as a little-endian pair, in order.
pub open spec fn wav_data(samples: Seq<i16>) -> Seq<u8>
    decreases samples.len(),
{
    if samples.len() == 0 {
        Seq::empty()
    } else {
        wav_data(samples.drop_last()).push(sample_lo(samples.last())).push(
            sample_hi(samples.last()),
        )
    }
}

/// The whole canonical container for `samples`.
pub open spec fn wav_bytes(samples: Seq<i16>) -> Seq<u8> {
    wav_header(samples.len() as int) + wav_data(samples)
}

/// Structural well-formedness of a container of the canonical shape:
/// magic values, chunk sizes consistent with the total length, and an
/// even number of data bytes.
pub open spec fn wav_structure_ok(bytes: Seq<u8>) -> bool {
    let n = bytes.len() as int;
    &&& n >= 44
    &&& n % 2 == 0
    &&& bytes[0] == 0x52
    &&& bytes[1] == 0x49
    &&& bytes[2] == 0x46
    &&& bytes[3] == 0x46
    &&& bytes[4] == le32_0(n - 8)
    &&& bytes[5] == le32_1(n - 8)
    &&& bytes[6] == le32_2(n - 8)
    &&& bytes[7] == le32_3(n - 8)
    &&& bytes[8] == 0x57
    &&& bytes[9] == 0x41
    &&& bytes[10] == 0x56
    &&& bytes[11] == 0x45
    &&& bytes[12] == 0x66
    &&& bytes[13] == 0x6D
    &&& bytes[14] == 0x74
    &&& bytes[15] == 0x20
    &&& bytes[16] == 0x10
    &&& bytes[17] == 0x00
    &&& bytes[18] == 0x00
    &&& bytes[19] == 0x00
    &&& bytes[36] == 0x64
    &&& bytes[37] == 0x61
    &&& bytes[38] == 0x74
    &&& bytes[39] == 0x61
    &&& bytes[40] == le32_0(n - 44)
    &&& bytes[41] == le32_1(n - 44)
    &&& bytes[42] == le32_2(n - 44)
    &&& bytes[43] == le32_3(n - 44)
}

/// The format fields of a well-formed container declare PCM, one
/// channel, 16000 Hz, 32000 bytes per second, block align 2, 16 bits.
pub open spec fn wav_format_ok(bytes: Seq<u8>) -> bool {
    &&& bytes[20] == 0x01
    &&& bytes[21] == 0x00
    &&& bytes[22] == 0x01
    &&& bytes[23] == 0x00
    &&& bytes[24] == 0x80
    &&& bytes[25] == 0x3E
    &&& bytes[26] == 0x00
    &&& bytes[27] == 0x00
    &&& bytes[28] == 0x00
    &&& bytes[29] == 0x7D
    &&& bytes[30] == 0x00
    &&& bytes[31] == 0x00
    &&& bytes[32] == 0x02
    &&& bytes[33] == 0x00
    &&& bytes[34] == 0x10
    &&& bytes[35] == 0x00
}

/// The samples stored after the 44-byte header.
pub open spec fn wav_data_samples(bytes: Seq<u8>) -> Seq<i16> {
    decode_pairs(bytes.subrange(44, bytes.len() as int))
}

/// Largest sample count whose container sizes fit a 32-bit size field.
pub const MAX_WAV_SAMPLES: usize = 2147483629;

fn push_le32(x: u32, out: &mut Vec<u8>)
    ensures
        final(out)@ == old(out)@ + seq![
            le32_0(x as int),
            le32_1(x as int),
            le32_2(x as int),
            le32_3(x as int),
        ],
{
    out.push((x % 256) as u8);
    out.push(((x / 256) % 256) as u8);
    out.push(((x / 65536) % 256) as u8);
    out.push(((x / 16777216) % 256) as u8);
    proof {
        assert(out@ =~= old(out)@ + seq![
            le32_0(x as int),
            le32_1(x as int),
            le32_2(x as int),
            le32_3(x as int),
        ]);
    }
}

/// Encodes `samples` as the canonical WAV container.
#[verifier::rlimit(100)]
pub fn encode_wav(samples: &Vec<i16>) -> (r: Vec<u8>)
    requires
        samples@.len() <= MAX_WAV_SAMPLES,
    ensures
        r@ == wav_bytes(samples@),
{
    let n: usize = samples.len();
    let data_size: u32 = 2 * (n as u32);
    let riff_size: u32 = 36 + data_size;
    let mut out: Vec<u8> = Vec::new();
    out.push(0x52);
    out.push(0x49);
    out.push(0x46);
    out.push(0x46);
    push_le32(riff_size, &mut out);
    out.push(0x57);
    out.push(0x41);
    out.push(0x56);
    out.push(0x45);
    out.push(0x66);
    out.push(0x6D);
    out.push(0x74);
    out.push(0x20);
    out.push(0x10);
    out.push(0x00);
    out.push(0x00);
    out.push(0x00);
    out.push(0x01);
    out.push(0x00);
    out.push(0x01);
    out.push(0x00);
    out.push(0x80);
    out.push(0x3E);
    out.push(0x00);
    out.push(0x00);
    out.push(0x00);
    out.push(0x7D);
    out.push(0x00);
    out.push(0x00);
    out.push(0x02);
    out.push(0x00);
    out.push(0x10);
    out.push(0x00);
    out.push(0x64);
    out.push(0x61);
    out.push(0x74);
    out.push(0x61);
    push_le32(data_size, &mut out);
    proof {
        assert(out@ =~= wav_header(n as int));
    }
    let mut i: usize = 0;
    while i < n
        invariant
            n == samples@.len(),
            n <= MAX_WAV_SAMPLES,
            i <= n,
            out@ == wav_header(n as int) + wav_data(samples@.subrange(0, i as int)),
        decreases n - i,
    {
        let s: i16 = samples[i];
        let u: u32 = if s < 0 {
            ((s as i32) + 65536) as u32
        } else {
            s as u32
        };
        out.push((u % 256) as u8);
        out.push((u / 256) as u8);
        proof {
            let sub1 = samples@.subrange(0, i + 1);
            assert(sub1.drop_last() =~= samples@.subrange(0, i as int));
            assert(sub1.last() == samples@[i as int]);
            assert(u == sample_unsigned(samples@[i as int]));
            assert(out@ =~= wav_header(n as int) + wav_data(sub1));
        }
        i = i + 1;
    }
    proof {
        assert(samples@.subrange(0, n as int) =~= samples@);
    }
    out
}

/// A well-formed container of the expected format is exactly the
/// canonical container of the samples it stores.
#[verifier::rlimit(100)]
pub proof fn lemma_wav_canonical(bytes: Seq<u8>, v: Seq<i16>)
    requires
        wav_structure_ok(bytes),
        wav_format_ok(bytes),
        v == wav_data_samples(bytes),
    ensures
        bytes == wav_bytes(v),
{
    let data_bytes = bytes.subrange(44, bytes.len() as int);
    crate::pcm::lemma_decode_pairs_len(data_bytes);
    lemma_wav_data_inverse(data_bytes);
    assert(bytes =~= wav_bytes(v));
}

#[verifier::rlimit(100)]
fn wav_structure_check(bytes: &[u8]) -> (r: bool)
    ensures
        r == wav_structure_ok(bytes@),
{
    let n: usize = bytes.len();
    if n < 44 || n % 2 != 0 {
        return false;
    }
    let riff = n - 8;
    let data = n - 44;
    bytes[0] == 0x52 && bytes[1] == 0x49 && bytes[2] == 0x46 && bytes[3] == 0x46 && bytes[4] == (
    riff % 256) as u8 && bytes[5] == ((riff / 256) % 256) as u8 && bytes[6] == ((riff / 65536)
        % 256) as u8 && bytes[7] == ((riff / 16777216) % 256) as u8 && bytes[8] == 0x57 && bytes[9]
        == 0x41 && bytes[10] == 0x56 && bytes[11] == 0x45 && bytes[12] == 0x66 && bytes[13] == 0x6D
        && bytes[14] == 0x74 && bytes[15] == 0x20 && bytes[16] == 0x10 && bytes[17] == 0x00
        && bytes[18] == 0x00 && bytes[19] == 0x00 && bytes[36] == 0x64 && bytes[37] == 0x61
        && bytes[38] == 0x74 && bytes[39] == 0x61 && bytes[40] == (data % 256) as u8 && bytes[41]
        == ((data / 256) % 256) as u8 && bytes[42] == ((data / 65536) % 256) as u8 && bytes[43] == (
    (data / 16777216) % 256) as u8
}

#[verifier::rlimit(100)]
fn wav_format_check(bytes: &[u8]) -> (r: bool)
    requires
        bytes@.len() >= 44,
    ensures
        r == wav_format_ok(bytes@),
{
    bytes[20] == 0x01 && bytes[21] == 0x00 && bytes[22] == 0x01 && bytes[23] == 0x00 && bytes[24]
        == 0x80 && bytes[25] == 0x3E && bytes[26] == 0x00 && bytes[27] == 0x00 && bytes[28] == 0x00
        && bytes[29] == 0x7D && bytes[30] == 0x00 && bytes[31] == 0x00 && bytes[32] == 0x02
        && bytes[33] == 0x00 && bytes[34] == 0x10 && bytes[35] == 0x00
}

/// Reads back a canonical container: checks the structure, then the
/// declared format, then yields every stored sample in order. Together
/// with `lemma_wav_canonical`, success means the input is exactly the
/// canonical container of the returned samples.
pub fn parse_wav(bytes: &[u8]) -> (r: Result<Vec<i16>, WavError>)
    ensures
        match r {
            Ok(v) => wav_structure_ok(bytes@) && wav_format_ok(bytes@) && v@ == wav_data_samples(
                bytes@,
            ),
            Err(e) => match e {
                WavError::MalformedHeader => !wav_structure_ok(bytes@),
                WavError::FormatMismatch => wav_structure_ok(bytes@) && !wav_format_ok(bytes@),
            },
        },
        r is Ok <==> wav_structure_ok(bytes@) && wav_format_ok(bytes@),
{
    if !wav_structure_check(bytes) {
        return Err(WavError::MalformedHeader);
    }
    if !wav_format_check(bytes) {
        return Err(WavError::FormatMismatch);
    }
    let n: usize = bytes.len();
    let payload: &[u8] = slice_subrange(bytes, 44, n);
    let mut sink = PcmSink::new();
    sink.write_chunk(payload);
    proof {
        assert(sink.fed_bytes() =~= bytes@.subrange(44, bytes@.len() as int));
    }
    match sink.finalize() {
        Ok(v) => Ok(v),
        Err(_) => {
            proof {
                assert(false);
            }
            Err(WavError::MalformedHeader)
        },
    }
}

proof fn lemma_sample_bytes_roundtrip(s: i16)
    ensures
        sample_of(sample_lo(s), sample_hi(s)) == s,
{
    let u = sample_unsigned(s);
    vstd::arithmetic::div_mod::lemma_fundamental_div_mod(u, 256);
    assert(sample_lo(s) + 256 * (sample_hi(s) as int) == u);
}

proof fn lemma_bytes_sample_roundtrip(lo: u8, hi: u8)
    ensures
        sample_lo(sample_of(lo, hi)) == lo,
        sample_hi(sample_of(lo, hi)) == hi,
{
    let u = lo + 256 * (hi as int);
    assert(sample_unsigned(sample_of(lo, hi)) == u);
    vstd::arithmetic::div_mod::lemma_fundamental_div_mod_converse(u, 256, hi as int, lo as int);
}

/// On an even number of bytes, re-encoding the decoded samples restores
/// the bytes exactly: the data section is in bijection with the samples.
pub proof fn lemma_wav_data_inverse(s: Seq<u8>)
    requires
        s.len() % 2 == 0,
    ensures
        wav_data(decode_pairs(s)) == s,
    decreases s.len(),
{
    crate::pcm::lemma_decode_pairs_len(s);
    if s.len() == 0 {
        assert(wav_data(decode_pairs(s)) =~= s);
    } else {
        let s0 = s.subrange(0, s.len() - 2);
        let a = s[s.len() - 2];
        let b = s[s.len() - 1];
        assert(s =~= s0.push(a).push(b));
        crate::pcm::lemma_decode_pairs_push(s0, a);
        crate::pcm::lemma_decode_pairs_push(s0.push(a), b);
        lemma_wav_data_inverse(s0);
        lemma_bytes_sample_roundtrip(a, b);
        let v = decode_pairs(s);
        assert(v == decode_pairs(s0).push(sample_of(a, b)));
        crate::pcm::lemma_decode_pairs_len(s0);
        assert(v.len() > 0);
        assert(v.drop_last() =~= decode_pairs(s0));
        assert(wav_data(v) =~= s);
    }
}

/// The sample bytes decode back to exactly the samples they were made
/// from: the data section loses nothing and invents nothing.
pub proof fn lemma_wav_data_decodes(samples: Seq<i16>)
    ensures
        wav_data(samples).len() == 2 * samples.len(),
        decode_pairs(wav_data(samples)) == samples,
    decreases samples.len(),
{
    if samples.len() == 0 {
        assert(decode_pairs(wav_data(samples)) =~= samples);
    } else {
        let rest = samples.drop_last();
        let s = samples.last();
        lemma_wav_data_decodes(rest);
        let d0 = wav_data(rest);
        crate::pcm::lemma_decode_pairs_push(d0, sample_lo(s));
        crate::pcm::lemma_decode_pairs_push(d0.push(sample_lo(s)), sample_hi(s));
        lemma_sample_bytes_roundtrip(s);
        assert(decode_pairs(wav_data(samples)) =~= samples);
    }
}

/// Round trip: the encoder's output is a well-formed container of the
/// expected format, and reading it back yields exactly the samples that
/// went in.
pub proof fn lemma_wav_roundtrip(samples: Seq<i16>)
    ensures
        wav_structure_ok(wav_bytes(samples)),
        wav_format_ok(wav_bytes(samples)),
        wav_data_samples(wav_bytes(samples)) == samples,
{
    lemma_wav_data_decodes(samples);
    let b = wav_bytes(samples);
    assert(wav_header(samples.len() as int).len() == 44);
    assert(b.len() == 44 + 2 * samples.len());
    assert(b.subrange(44, b.len() as int) =~= wav_data(samples));
}

} // verus!
