use babble_boop::gate::{peak_amplitude, NoiseGate};
use babble_boop::segmenter::{AudioEvent, Segmenter};
use babble_boop::dispatch::{classify_duration, screen_utterance, Screening};
use babble_boop::wav::{audio_duration_ms, duration_of};

fn bits(samples: &[f32]) -> Vec<u32> {
    samples.iter().map(|s| s.to_bits()).collect()
}

fn loud() -> Vec<u32> {
    bits(&[0.0, 0.5, -0.9, 0.2])
}

fn quiet() -> Vec<u32> {
    bits(&[0.01, -0.02, 0.0, 0.015])
}

#[test]
fn peak_ignores_sign_and_nan() {
    assert_eq!(peak_amplitude(&bits(&[0.1, -0.7, 0.3])), 0.7f32.to_bits());
    assert_eq!(peak_amplitude(&bits(&[f32::NAN, -0.25])), 0.25f32.to_bits());
    assert_eq!(peak_amplitude(&[]), 0);
    assert_eq!(peak_amplitude(&bits(&[-0.0])), 0);
}

#[test]
fn gate_opens_on_first_loud_frame_and_holds() {
    let mut g = NoiseGate::new(0.1f32.to_bits(), 500, 0);
    assert!(!g.process(&quiet(), 10));
    assert!(!g.process(&quiet(), 20));
    assert!(g.process(&loud(), 30));
    // Quiet frames keep the noise gate open for the hold time after the last loud frame.
    assert!(g.process(&quiet(), 300));
    assert!(g.process(&quiet(), 530));
    assert!(!g.process(&quiet(), 531));
    assert!(!g.is_active());
    assert!(g.process(&loud(), 600));
}

#[test]
fn loud_then_silent_frames_give_start_stop_audio() {
    let mut s = Segmenter::new(0.1f32.to_bits(), 0, 3, 1, 16000, 0);
    let mut events: Vec<AudioEvent> = Vec::new();
    let mut now: u64 = 0;
    for _ in 0..4 {
        now += 10;
        events.extend(s.on_frame(&loud(), now));
    }
    for _ in 0..5 {
        now += 10;
        events.extend(s.on_frame(&quiet(), now));
    }
    assert_eq!(events.len(), 3);
    assert!(matches!(events[0], AudioEvent::StartRecording));
    assert!(matches!(events[1], AudioEvent::StopRecording));
    match &events[2] {
        AudioEvent::AudioData(bytes) => {
            // four loud frames and the two silent frames before the third
            let mut reader = hound::WavReader::new(std::io::Cursor::new(bytes.clone())).unwrap();
            assert_eq!(reader.spec().channels, 1);
            assert_eq!(reader.spec().sample_rate, 16000);
            assert_eq!(reader.spec().bits_per_sample, 32);
            assert_eq!(reader.spec().sample_format, hound::SampleFormat::Float);
            let samples: Vec<f32> = reader.samples::<f32>().map(|r| r.unwrap()).collect();
            assert_eq!(samples.len(), 24);
            assert_eq!(samples[2], -0.9);
            assert_eq!(samples[20], 0.01);
        }
        other => panic!("expected audio, got {:?}", other),
    }
    assert!(!s.is_recording());
    assert_eq!(s.buffered_samples(), 0);
}

#[test]
fn frames_after_the_end_of_an_utterance_give_nothing() {
    let mut s = Segmenter::new(0.1f32.to_bits(), 0, 1, 1, 8000, 0);
    let first = s.on_frame(&loud(), 0);
    assert!(matches!(first[0], AudioEvent::StartRecording));
    let stop = s.on_frame(&[], 10);
    assert_eq!(stop.len(), 2);
    assert!(matches!(stop[0], AudioEvent::StopRecording));
    assert!(matches!(stop[1], AudioEvent::AudioData(_)));
    // Quiet frames after the end produce nothing.
    assert!(s.on_frame(&quiet(), 20).is_empty());
    assert!(s.on_frame(&[], 30).is_empty());
}

#[test]
fn pauses_shorter_than_silence_threshold_stay_in_utterance() {
    let mut s = Segmenter::new(0.1f32.to_bits(), 0, 3, 1, 8000, 0);
    assert_eq!(s.on_frame(&loud(), 0).len(), 1);
    assert!(s.on_frame(&quiet(), 10).is_empty());
    assert!(s.on_frame(&quiet(), 20).is_empty());
    assert!(s.on_frame(&loud(), 30).is_empty());
    assert!(s.is_recording());
    assert_eq!(s.buffered_samples(), 16);
}

#[test]
fn stereo_utterance_of_odd_length_is_skipped() {
    let mut s = Segmenter::new(0.1f32.to_bits(), 0, 1, 2, 8000, 0);
    s.on_frame(&bits(&[0.5, 0.5, 0.5]), 0);
    let stop = s.on_frame(&[], 10);
    assert_eq!(stop.len(), 1);
    assert!(matches!(stop[0], AudioEvent::StopRecording));
}

#[test]
fn encoded_duration_round_trips() {
    let spec = hound::WavSpec {
        channels: 2,
        sample_rate: 8000,
        bits_per_sample: 32,
        sample_format: hound::SampleFormat::Float,
    };
    let mut bytes: Vec<u8> = Vec::new();
    {
        let mut writer = hound::WavWriter::new(std::io::Cursor::new(&mut bytes), spec).unwrap();
        for _ in 0..16000 {
            writer.write_sample(0.25f32).unwrap();
        }
        writer.finalize().unwrap();
    }
    assert_eq!(audio_duration_ms(&bytes), Some(1000));
    assert_eq!(audio_duration_ms(&[1, 2, 3]), None);
    assert_eq!(duration_of(12000, 8000), 1500);
    assert_eq!(duration_of(1, 3), 333);
    assert_eq!(screen_utterance(&bytes, 1000), Screening::Accepted(1000));
    assert_eq!(screen_utterance(&bytes, 1001), Screening::TooShort(1000));
    assert_eq!(screen_utterance(b"RIFF", 0), Screening::Unreadable);
    assert_eq!(screen_utterance(&[], 0), Screening::Unreadable);
}

#[test]
fn durations_are_judged_against_the_minimum() {
    assert_eq!(classify_duration(Some(1500), 1000), Screening::Accepted(1500));
    assert_eq!(classify_duration(Some(1000), 1000), Screening::Accepted(1000));
    assert_eq!(classify_duration(Some(999), 1000), Screening::TooShort(999));
    assert_eq!(classify_duration(None, 0), Screening::Unreadable);
}
