use parla::audio::{frames, pick_device, room, Resampler};
use parla::config::AudioConfig;
use parla::vad::{
    finish, frame_len, min_speech_ms, speech_span, trim_span, validate, Gate, Rejected,
};

/// The mean of each window.
fn means(windows: Vec<Vec<f32>>) -> Vec<f32> {
    windows
        .iter()
        .map(|w| w.iter().sum::<f32>() / w.len() as f32)
        .collect()
}

fn resample(input: &[f32], src: u32, dst: u32) -> Vec<f32> {
    means(Resampler::new(src, dst).push(&input.to_vec()))
}

#[test]
fn resample_48_to_16() {
    let input: Vec<f32> = (0..4800).map(|i| (i % 4800) as f32).collect();
    let out = resample(&input, 48_000, 16_000);
    assert_eq!(out.len(), 1600);
    // first output = average of first 3 input samples
    assert_eq!(out[0], (0.0 + 1.0 + 2.0) / 3.0);
}

#[test]
fn resample_passthrough() {
    let input = vec![1.0f32, 2.0, 3.0];
    assert_eq!(resample(&input, 16_000, 16_000), input);
}

fn signal(n: usize) -> Vec<f32> {
    (0..n)
        .map(|i| ((i as f32) * 0.01).sin() * 0.7 + ((i as f32) * 0.37).cos() * 0.2)
        .collect()
}

#[test]
fn chunked_matches_whole_pass() {
    for (src, dst) in [
        (48_000, 16_000),
        (44_100, 16_000),
        (96_000, 16_000),
        (22_050, 16_000),
    ] {
        let input = signal(20_000);
        let whole = resample(&input, src, dst);

        // Odd chunk sizes so window boundaries fall inside chunks.
        for chunk in [1usize, 7, 100, 333, 1024, 4801] {
            let mut r = Resampler::new(src, dst);
            let mut chunked = Vec::new();
            for c in input.chunks(chunk) {
                chunked.extend(means(r.push(&c.to_vec())));
            }
            assert_eq!(
                chunked, whole,
                "src={src} dst={dst} chunk={chunk}: chunked resampling differs"
            );
        }
    }
}

#[test]
fn carry_stays_bounded() {
    let mut r = Resampler::new(48_000, 16_000);
    for c in signal(48_000).chunks(480) {
        r.push(&c.to_vec());
        assert!(r.carried_over() < 8, "carry grew to {}", r.carried_over());
    }
}

#[test]
fn windows_start_where_the_rates_say() {
    for (src, dst) in [
        (8_000u32, 16_000u32),
        (11_025, 16_000),
        (22_050, 16_000),
        (32_000, 16_000),
        (44_100, 16_000),
        (48_000, 16_000),
        (88_200, 16_000),
        (96_000, 16_000),
        (192_000, 16_000),
    ] {
        let ratio = f64::from(src) / f64::from(dst);
        let input: Vec<u32> = (0..100_000).collect();
        let windows = Resampler::new(src, dst).push(&input);
        for (i, w) in windows.iter().enumerate() {
            let start = (i as f64 * ratio).floor() as u32;
            let next = ((i + 1) as f64 * ratio).floor() as u32;
            let want: Vec<u32> = (start..next.max(start + 1)).collect();
            assert_eq!(*w, want, "{src} {i}");
        }
    }
}

#[test]
fn every_split_of_a_stream_brings_the_same_windows() {
    let input: Vec<u32> = (0..60).collect();
    for (src, dst) in [(3u32, 7u32), (7, 3), (1, 5), (5, 5), (441, 160), (11_025, 16_000)] {
        let both = Resampler::new(src, dst).push(&input);
        for cut in 0..=input.len() {
            let mut r = Resampler::new(src, dst);
            let mut pieces = r.push(&input[..cut].to_vec());
            pieces.extend(r.push(&input[cut..].to_vec()));
            assert_eq!(pieces, both, "{src} {dst} {cut}");
        }
    }
    let third = Resampler::new(7, 3).push(&input);
    assert_eq!(third[0], vec![0, 1]);
    assert_eq!(third[1], vec![2, 3]);
    assert_eq!(third[2], vec![4, 5, 6]);
    // The last window ends at floor(26 * 7 / 3), the end of the input.
    assert_eq!(third.len(), 26);
}

#[test]
fn a_full_buffer_takes_nothing() {
    assert_eq!(room(10, 4, 3), 3);
    assert_eq!(room(10, 8, 3), 2);
    assert_eq!(room(10, 10, 3), 0);
    assert_eq!(room(10, 12, 3), 0);
}

fn rms(s: &[f32]) -> f32 {
    (s.iter().map(|x| x * x).sum::<f32>() / s.len() as f32).sqrt()
}

fn gated(samples: &[f32], rate: u32) -> Result<Vec<f32>, Rejected> {
    let cfg = AudioConfig::default();
    let threshold = f64::from_bits(cfg.speech_threshold.bits) as f32;
    let loud: Vec<bool> = samples
        .chunks(frame_len(rate))
        .map(|f| rms(f) >= threshold)
        .collect();
    let (start, end) = validate(
        &loud,
        samples.len(),
        rate,
        cfg.min_utterance_ms,
        cfg.max_utterance_ms,
    )?;
    Ok(samples[start..end].to_vec())
}

#[test]
fn trims_silence_and_validates() {
    let rate: u32 = 16_000;
    let n = rate as usize;
    let mut s = vec![0.0f32; n / 2]; // 0.5 s silence
    s.extend(vec![0.3f32; n]); // 1 s "speech"
    s.extend(vec![0.0f32; n / 2]); // 0.5 s silence
    let out = gated(&s, rate).unwrap();
    let ms = out.len() * 1000 / n;
    assert!((900..1100).contains(&ms), "expected ~1000ms, got {ms}");
}

#[test]
fn rejects_silence() {
    let s = vec![0.0001f32; 16_000];
    assert_eq!(gated(&s, 16_000), Err(Rejected::NoEnergy));
}

#[test]
fn rejects_too_short() {
    let s = vec![0.3f32; 1600]; // 100 ms
    let e = gated(&s, 16_000).unwrap_err();
    assert_eq!(e, Rejected::TooShort { ms: 100, min: 250 });
    assert_eq!(e.text(""), "utterance too short (100 ms < 250 ms)");
}

#[test]
fn energy_gate_through_the_gate_type() {
    let gate = Gate::Energy {
        reason: "test".into(),
    };
    let s = vec![0.3f32; 16_000];
    assert_eq!(gated(&s, 16_000).unwrap().len(), 16_000);
    assert!(gate.describe().starts_with("energy gate ("));
}

#[test]
fn missing_model_falls_back_to_energy() {
    let path = "/nonexistent/parla-test/ggml-silero.bin";
    let gate = Gate::for_model(path, std::path::Path::new(path).exists(), None);
    assert!(matches!(gate, Gate::Energy { .. }), "{}", gate.describe());
    assert!(gate
        .describe()
        .contains("/nonexistent/parla-test/ggml-silero.bin"));
}

#[test]
fn gates_say_what_they_are() {
    assert_eq!(Gate::for_model("/m", true, None).describe(), "silero (/m)");
    assert_eq!(
        Gate::for_model("/m", true, Some("bad magic")).describe(),
        "energy gate (failed to load /m: bad magic)"
    );
    assert_eq!(
        Rejected::NoEnergy.text("0.0001"),
        "no speech above threshold (peak rms 0.0001)"
    );
    assert_eq!(
        Rejected::NoSpeech.text("0.0001"),
        "no speech detected (peak rms 0.0001)"
    );
}

#[test]
fn long_speech_is_cut() {
    assert_eq!(finish(16_000 * 40, 16_000, 250, 30_000), Ok(16_000 * 30));
    assert_eq!(finish(16_000, 16_000, 250, 30_000), Ok(16_000));
    assert_eq!(frame_len(16_000), 480);
    assert_eq!(frame_len(10), 1);
    assert_eq!(min_speech_ms(100), 100);
    assert_eq!(min_speech_ms(400), 250);
}

#[test]
fn speech_is_the_span_between_first_and_last() {
    assert_eq!(speech_span(10, 20, 100), Some((10, 20)));
    assert_eq!(speech_span(90, 120, 100), Some((90, 100)));
    assert_eq!(speech_span(100, 120, 100), None);
    assert_eq!(speech_span(20, 10, 100), None);
    assert_eq!(trim_span(&vec![false, false], 480, 960), None);
    let (start, end) = trim_span(&vec![false, true, false], 480, 1_440).unwrap();
    assert!(start <= 480 && end >= 960);
}

#[test]
fn a_device_is_picked_by_part_of_its_name() {
    let names = vec![
        None,
        Some("HDA Intel PCH".to_string()),
        Some("USB Headset".to_string()),
        Some("USB Camera".to_string()),
    ];
    assert_eq!(pick_device(&names, None), Ok(None));
    assert_eq!(pick_device(&names, Some("USB")), Ok(Some(2)));
    assert_eq!(pick_device(&names, Some("Camera")), Ok(Some(3)));
    assert_eq!(
        pick_device(&names, Some("usb")),
        Err("input device \"usb\" not found".to_string())
    );
}

#[test]
fn interleaved_samples_are_read_frame_by_frame() {
    assert_eq!(
        frames(&[1, 2, 3, 4, 5], 2),
        vec![vec![1, 2], vec![3, 4]]
    );
    assert_eq!(frames(&[1, 2], 0), vec![vec![1], vec![2]]);
    assert_eq!(frames(&[1, 2], 3), Vec::<Vec<i32>>::new());
}
