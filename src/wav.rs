//! The WAV container, written and read through hound.

use vstd::prelude::*;

verus! {

/// Most samples one utterance may hold: hound keeps the data length of a
/// file, header included, in 32 bits.
pub const MAX_UTTERANCE_SAMPLES: usize = 0x3fff_0000;

/// The bytes of the WAV file that hound writes for the given interleaved
/// samples, stored as 32-bit IEEE floats given by their bit patterns.
pub uninterp spec fn wav_float32_bytes(samples: Seq<u32>, channels: u16, sample_rate: u32) -> Seq<u8>;

/// Length in frames (samples per channel) that hound reads from a WAV file.
pub uninterp spec fn wav_duration_frames(bytes: Seq<u8>) -> u32;

/// Sample rate that hound reads from the header of a WAV file.
pub uninterp spec fn wav_sample_rate(bytes: Seq<u8>) -> u32;

/// Whether hound reads the header of a WAV file held in memory.
pub uninterp spec fn wav_readable(bytes: Seq<u8>) -> bool;

/// Whether hound can write the header of a 32-bit float WAV file with this
/// layout: it divides by the sample rate and keeps the bytes per second in a `u32`.
pub open spec fn wav_layout_ok(channels: u16, sample_rate: u32) -> bool {
    channels > 0 && sample_rate > 0 && sample_rate * 4 * channels <= u32::MAX
}

/// Relies on hound's `WavWriter::new`, `write_sample` and `finalize`, writing
/// into memory. Each sample is handed over as the `i32` with the same bits:
/// at 32 bits per sample hound writes an `i32` and an `f32` as the same four
/// little-endian bytes. Writing into a `Vec` fails only when the sample count
/// is not a multiple of the channel count; hound divides by the channel count
/// and keeps the data length in a `u32`. Writing the header divides by the
/// sample rate and multiplies it by four bytes and the channel count in a `u32`.
#[verifier::external_body]
pub(crate) fn encode_wav_float32(samples: &Vec<u32>, channels: u16, sample_rate: u32) -> (r: Option<Vec<u8>>)
    requires
        wav_layout_ok(channels, sample_rate),
        samples@.len() <= MAX_UTTERANCE_SAMPLES,
    ensures
        samples@.len() % (channels as nat) == 0 ==> r is Some,
        r matches Some(b) ==> b@ == wav_float32_bytes(samples@, channels, sample_rate),
{
    let spec = hound::WavSpec { channels, sample_rate, bits_per_sample: 32, sample_format: hound::SampleFormat::Float };
    let mut bytes: Vec<u8> = Vec::new();
    let mut writer = match hound::WavWriter::new(std::io::Cursor::new(&mut bytes), spec) {
        Ok(w) => w,
        Err(_) => return None,
    };
    for s in samples.iter() {
        if writer.write_sample(*s as i32).is_err() {
            return None;
        }
    }
    match writer.finalize() {
        Ok(()) => Some(bytes),
        Err(_) => None,
    }
}

/// Relies on hound's `WavReader::new`, `duration` and `spec`: the header of a
/// WAV file held in memory gives its length in frames and its sample rate.
/// Whether the header is accepted depends on the bytes alone.
#[verifier::external_body]
fn read_wav_header(bytes: &[u8]) -> (r: Option<(u32, u32)>)
    ensures
        r is Some <==> wav_readable(bytes@),
        r matches Some(h) ==> h.0 == wav_duration_frames(bytes@) && h.1 == wav_sample_rate(bytes@),
{
    match hound::WavReader::new(std::io::Cursor::new(bytes)) {
        Ok(reader) => Some((reader.duration(), reader.spec().sample_rate)),
        Err(_) => None,
    }
}

/// Duration in whole milliseconds of `frames` frames at `rate` frames per second.
pub open spec fn duration_ms(frames: u32, rate: u32) -> int
    recommends
        rate > 0,
{
    frames as int * 1000 / rate as int
}

/// Duration of an encoded utterance, in whole milliseconds.
///
/// `None` when hound cannot read the header, or the header gives a zero sample rate.
pub fn audio_duration_ms(bytes: &[u8]) -> (r: Option<u64>)
    ensures
        wav_readable(bytes@) && wav_sample_rate(bytes@) > 0 ==> r is Some,
        !wav_readable(bytes@) ==> r is None,
        wav_sample_rate(bytes@) == 0 ==> r is None,
        r matches Some(d) ==> wav_sample_rate(bytes@) > 0 && d == duration_ms(
            wav_duration_frames(bytes@),
            wav_sample_rate(bytes@),
        ),
{
    match read_wav_header(bytes) {
        Some((frames, rate)) => {
            if rate == 0 {
                None
            } else {
                Some(duration_of(frames, rate))
            }
        },
        None => None,
    }
}

/// Duration in whole milliseconds of `frames` frames at `rate` frames per second.
pub fn duration_of(frames: u32, rate: u32) -> (r: u64)
    requires
        rate > 0,
    ensures
        r == duration_ms(frames, rate),
{
    assert(frames as int * 1000 <= u32::MAX as int * 1000) by (nonlinear_arith)
        requires
            frames <= u32::MAX,
    ;
    let scaled: u64 = frames as u64 * 1000;
    assert(scaled / (rate as u64) <= scaled) by (nonlinear_arith)
        requires
            rate > 0,
    ;
    scaled / (rate as u64)
}

} // verus!
