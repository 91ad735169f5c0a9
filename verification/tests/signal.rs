use cathar::analysis::{clip_runs, clip_runs_channel, suggested_issues, Issue, Suggestion};
use cathar::buffer::{deinterleave, interleave, AudioData, MockDenoiser};
use cathar::clicks::{declick_plan, ClickRepair};
use cathar::edit::{pad_samples, reverse, select_channels, strip_range, trim_samples, voice_segment};
use cathar::frames::frame_starts;
use cathar::gaps::dropout_gaps;
use cathar::methods::{
    DeclickMethod, DeclipMethod, DeplosiveMethod, EnhanceMethod, LagMethod, NeuralConfig, StretchMode,
};
use cathar::noise::{dither_states, dither_step, xorshift64, xorshift_states, DITHER_SEED};
use cathar::plosive::{isolate_plosives, unrhythmic_plosives};
use cathar::quiet::{pick_even_by_level, tile_starts};
use cathar::voice::smooth_voice_frames;

/// A 0.5-amplitude sine plus xorshift white noise, as the toolbox's test
/// tone generator makes it.
fn test_tone(sample_rate: u32, frequency: f32, duration_secs: f32, noise_level: f32) -> AudioData<f32> {
    let n = (sample_rate as f32 * duration_secs) as usize;
    let states = xorshift_states(42, n);
    let samples = (0..n)
        .map(|i| {
            let t = i as f32 / sample_rate as f32;
            let signal = (2.0 * std::f32::consts::PI * frequency * t).sin() * 0.5;
            let noise = ((states[i] as f32) / (u64::MAX as f32) - 0.5) * noise_level;
            signal + noise
        })
        .collect();
    AudioData { sample_rate, channels: vec![samples] }
}

fn clip_marks(ch: &[f32]) -> Vec<i8> {
    ch.iter().map(|&s| if s.abs() >= 0.99 { if s < 0.0 { -1 } else { 1 } } else { 0 }).collect()
}

fn loud_marks(sig: &[f32], threshold: f32) -> Vec<bool> {
    sig.iter().map(|s| s.abs() > threshold).collect()
}

#[test]
fn mock_denoiser_passthrough() {
    let audio = test_tone(44100, 440.0, 1.0, 0.1);
    let denoiser = MockDenoiser;
    let clean = denoiser.denoise(&audio).unwrap();
    assert_eq!(clean.sample_rate, audio.sample_rate);
    assert_eq!(clean.channels.len(), audio.channels.len());
    assert_eq!(clean.channels[0].len(), audio.channels[0].len());
    for (a, b) in audio.channels[0].iter().zip(clean.channels[0].iter()) {
        assert_eq!(a, b);
    }
}

#[test]
fn trim_cuts_range() {
    let sig: Vec<f32> = (0..1000).map(|i| i as f32).collect();
    // 0.1 s to 0.3 s at 1 kHz.
    let out = trim_samples(&sig, 100, 200).unwrap();
    assert_eq!(out.len(), 200);
    assert_eq!(out[0], 100.0);
}

#[test]
fn trim_clamps_and_rejects_empty() {
    let sig: Vec<i32> = (0..10).collect();
    assert_eq!(trim_samples(&sig, 8, 5).unwrap(), vec![8, 9]);
    assert!(trim_samples(&sig, 10, 5).is_none());
    assert!(trim_samples(&sig, 3, 0).is_none());
}

#[test]
fn pad_adds_silence() {
    let sig = vec![1.0f32; 100];
    let out = pad_samples(&sig, 0.0, 50, 100);
    assert_eq!(out.len(), 250);
    assert_eq!(out[0..50].iter().sum::<f32>(), 0.0);
    assert_eq!(out[150..250].iter().sum::<f32>(), 0.0);
    assert_eq!(out[50..150].iter().sum::<f32>(), 100.0);
}

#[test]
fn reverse_flips() {
    let sig: Vec<f32> = (0..100).map(|i| i as f32).collect();
    let out = reverse(&sig);
    assert_eq!(out[0], 99.0);
    assert_eq!(out[99], 0.0);
}

#[test]
fn audio_reverse_trait() {
    let audio = test_tone(44_100, 440.0, 1.0, 0.0);
    let rev = audio.reverse();
    assert_eq!(rev.channels[0][0], audio.channels[0][audio.channels[0].len() - 1]);
}

#[test]
fn select_channels_skips_missing_indices() {
    let ch = vec![vec![1, 2], vec![3, 4], vec![5, 6]];
    assert_eq!(select_channels(&ch, &vec![2, 7, 0]), vec![vec![5, 6], vec![1, 2]]);
}

#[test]
fn silence_strip_strips_ends() {
    let mut sig = vec![0.001f32; 1000];
    sig[200..300].copy_from_slice(&vec![1.0f32; 100]);
    // Threshold 0.01, 0.05 s margin at 1 kHz.
    let (s, e) = strip_range(&loud_marks(&sig, 0.01), 50).unwrap();
    assert_eq!((s, e), (150, 350));
    let len = e - s;
    assert!(len > 100 && len < 400, "got {}", len);
}

#[test]
fn strip_range_clamps_margins_and_sees_silence() {
    let mut loud = vec![false; 20];
    loud[2] = true;
    loud[18] = true;
    assert_eq!(strip_range(&loud, 5), Some((0, 20)));
    assert_eq!(strip_range(&vec![false; 20], 5), None);
}

#[test]
fn vad_finds_speech() {
    let mut sig = vec![0.001f32; 1000];
    sig[300..500].copy_from_slice(&vec![0.5f32; 200]);
    // Threshold 0.1, at least 0.05 s at 1 kHz.
    let result = voice_segment(&loud_marks(&sig, 0.1), 50);
    assert!(result.is_some());
    let (s, e) = result.unwrap();
    let (start, end) = (s as f32 / 1000.0, e as f32 / 1000.0);
    assert!((0.29..=0.31).contains(&start));
    assert!((0.49..=0.51).contains(&end));
}

#[test]
fn voice_segment_ignores_short_bursts() {
    let mut loud = vec![false; 100];
    for i in 10..14 {
        loud[i] = true;
    }
    for i in 40..60 {
        loud[i] = true;
    }
    assert_eq!(voice_segment(&loud, 5), Some((40, 59)));
    assert_eq!(voice_segment(&loud, 30), None);
}

#[test]
fn isolated_full_scale_sample_is_not_a_run() {
    let mut audio = test_tone(48_000, 440.0, 1.0, 0.0);
    audio.channels[0][1000] = 1.0;
    let marks: Vec<Vec<i8>> = audio.channels.iter().map(|c| clip_marks(c)).collect();
    let (clipped_samples, clipped_runs) = clip_runs(&marks);
    assert_eq!(clipped_samples, 1);
    assert_eq!(clipped_runs, 0);
    // The sample peak is exactly 0 dBFS, not above it.
    let peak = audio.channels[0].iter().fold(0.0f32, |m, s| m.max(s.abs()));
    let issues = suggested_issues(clipped_runs, 20.0 * peak.log10() > 0.0, false, false, false);
    assert!(!issues.contains(&Issue::Clipping), "{:?}", issues);
}

#[test]
fn clip_runs_count_same_sign_stretches() {
    assert_eq!(clip_runs_channel(&vec![0, 1, 1, 0, -1, 0, 1]), (4, 1));
    assert_eq!(clip_runs_channel(&vec![1, -1, 1, -1]), (4, 0));
    assert_eq!(clip_runs(&vec![vec![0, 1, 1, 0, -1], vec![-1, -1, -1, 0, 1]]), (7, 2));
    assert_eq!(clip_runs(&vec![]), (0, 0));
}

#[test]
fn suggestions_follow_measurements() {
    assert_eq!(suggested_issues(0, false, false, true, true), vec![Issue::Noise]);
    assert_eq!(suggested_issues(2, false, true, true, false), vec![Issue::Clipping]);
    assert_eq!(suggested_issues(0, false, true, false, false), vec![Issue::TruePeak]);
    assert_eq!(suggested_issues(0, true, false, true, true), vec![Issue::Clipping, Issue::Noise]);
    assert_eq!(suggested_issues(0, false, true, true, true), vec![Issue::TruePeak, Issue::Noise]);
    assert_eq!(suggested_issues(0, false, false, true, false), vec![]);
    assert_eq!(suggested_issues(0, false, false, false, true), vec![]);
}

#[test]
fn suggestion_invocations() {
    let clip = Suggestion::for_issue(Issue::Clipping, "3 flat-top runs".to_string());
    assert_eq!(clip.issue, "clipping");
    assert_eq!(clip.detail, "3 flat-top runs");
    assert_eq!(clip.invocation("mix.wav"), "cathar declip mix.wav");
    let tp = Suggestion::for_issue(Issue::TruePeak, String::new());
    assert_eq!(tp.invocation("in.wav"), "cathar normalize in.wav --true-peak -1");
    let noise = Suggestion::for_issue(Issue::Noise, String::new());
    assert_eq!(noise.command, "denoise");
}

#[test]
fn interleave_round_trips() {
    let ch = vec![vec![1, 2, 3], vec![4, 5, 6]];
    let il = interleave(&ch);
    assert_eq!(il, vec![1, 4, 2, 5, 3, 6]);
    assert_eq!(deinterleave(&il, 2), ch);
    let audio = AudioData::from_interleaved(&il, 2, 8000);
    assert_eq!(audio.channels, ch);
    assert_eq!(audio.interleaved(), il);
}

#[test]
fn deinterleave_shares_a_partial_frame() {
    assert_eq!(deinterleave(&vec![1, 2, 3, 4, 5], 2), vec![vec![1, 3, 5], vec![2, 4]]);
}

#[test]
fn mono_to_stereo_duplicates() {
    let a = AudioData::mono_to_stereo(vec![0.25f32, -0.5], 22_050);
    assert_eq!(a.sample_rate, 22_050);
    assert_eq!(a.channels, vec![vec![0.25, -0.5], vec![0.25, -0.5]]);
}

#[test]
fn frame_starts_end_flush() {
    assert_eq!(frame_starts(10, 4, 3), vec![0, 3, 6]);
    assert_eq!(frame_starts(11, 4, 3), vec![0, 3, 6, 7]);
    assert_eq!(frame_starts(4, 4, 2), vec![0]);
    assert_eq!(frame_starts(3, 4, 1), vec![]);
}

#[test]
fn frames_cover_every_sample_when_hop_fits() {
    let (n, l, hop) = (1000usize, 64usize, 48usize);
    let starts = frame_starts(n, l, hop);
    for p in 0..n {
        assert!(starts.iter().any(|&s| s <= p && p < s + l), "sample {p} uncovered");
    }
}

#[test]
fn dropout_gaps_are_interior_short_runs() {
    let m = vec![false, true, true, false, true, false, true, true, true, true];
    assert_eq!(dropout_gaps(&m, 3), vec![(1, 2)]);
    assert_eq!(dropout_gaps(&m, 1), vec![]);
    let m2 = vec![false, true, true, true, false, true, true, false];
    assert_eq!(dropout_gaps(&m2, 3), vec![(1, 3), (5, 2)]);
}

#[test]
fn quiet_windows_picked_evenly_by_level() {
    let ranked = vec![50, 10, 30, 70, 90, 20];
    assert_eq!(pick_even_by_level(&ranked, 4, 3), vec![10, 50, 70]);
    assert_eq!(pick_even_by_level(&ranked, 4, 1), vec![50]);
    assert_eq!(pick_even_by_level(&ranked, 4, 10), vec![10, 30, 50, 70]);
    assert_eq!(pick_even_by_level(&ranked, 0, 2), vec![50]);
    assert_eq!(pick_even_by_level(&ranked, 4, 0), vec![]);
    assert_eq!(pick_even_by_level(&vec![], 4, 3), vec![]);
}

#[test]
fn plosives_close_to_a_neighbour_are_dropped() {
    let ev = vec![(100, 110), (130, 140), (1000, 1010)];
    assert_eq!(isolate_plosives(&ev, 50), vec![(1000, 1010)]);
    assert_eq!(isolate_plosives(&ev, 10), ev);
}

#[test]
fn rhythmic_plosives_are_dropped() {
    let mut ev: Vec<(usize, usize)> = (0..8).map(|k| (k * 10, k * 10 + 5)).collect();
    ev.push((10_000, 10_005));
    assert_eq!(unrhythmic_plosives(&ev, 100), vec![(10_000, 10_005)]);
    let sparse: Vec<(usize, usize)> = (0..6).map(|k| (k * 10, k * 10 + 5)).collect();
    assert_eq!(unrhythmic_plosives(&sparse, 100), sparse);
}

#[test]
fn declick_plan_pads_interior_and_edge_runs() {
    let mut m = vec![false; 40];
    m[20] = true;
    assert_eq!(declick_plan(&m, 8), vec![ClickRepair { start: 16, end: 25, interior: true }]);
    let mut edge = vec![false; 40];
    edge[4] = true;
    assert_eq!(declick_plan(&edge, 8), vec![ClickRepair { start: 0, end: 9, interior: false }]);
    assert_eq!(declick_plan(&vec![true; 8], 8), vec![]);
    assert_eq!(declick_plan(&m, 1), vec![]);
}

#[test]
fn xorshift_sequence_from_seed() {
    assert_eq!(xorshift64(42), 11_355_432);
    assert_eq!(xorshift_states(42, 2), vec![11_355_432, 2_889_041_884_332]);
    assert!(xorshift_states(42, 1000).iter().all(|&s| s != 0));
}

#[test]
fn dither_draws_two_states_per_sample() {
    let s = dither_states(2);
    assert_eq!(
        s,
        vec![4_018_790_486_776_397_394, 1_619_613_248_682_813_358, 12_314_804_274_138_566_369, 16_565_734_467_211_537_724]
    );
    assert_eq!(dither_step(DITHER_SEED), s[0]);
    assert!(dither_states(500).iter().all(|&x| x != 0));
}

#[test]
fn method_defaults() {
    assert_eq!(LagMethod::default(), LagMethod::Correlation);
    assert_eq!(DeclipMethod::default(), DeclipMethod::Spade);
    assert_eq!(EnhanceMethod::default(), EnhanceMethod::Replicate);
    assert_eq!(DeclickMethod::default(), DeclickMethod::Ar);
    assert_eq!(DeplosiveMethod::default(), DeplosiveMethod::Events);
    assert_eq!(StretchMode::default(), StretchMode::Wsola);
    let c = NeuralConfig::default();
    assert_eq!((c.fft_size, c.hop_size, c.hidden), (512, 128, 256));
}

#[test]
fn tiles_fit_inside_the_signal() {
    assert_eq!(tile_starts(10, 3), vec![0, 3, 6]);
    assert_eq!(tile_starts(9, 3), vec![0, 3, 6]);
    assert_eq!(tile_starts(2, 3), vec![]);
    assert_eq!(tile_starts(0, 1), vec![]);
}

#[test]
fn reverse_twice_is_identity() {
    let sig: Vec<i16> = vec![3, -1, 4, 1, -5];
    assert_eq!(reverse(&reverse(&sig)), sig);
}

#[test]
fn trim_undoes_pad() {
    let sig = vec![0.5f32, -0.25, 0.125];
    let padded = pad_samples(&sig, 0.0, 7, 4);
    assert_eq!(trim_samples(&padded, 7, sig.len()).unwrap(), sig);
}

#[test]
fn click_repairs_stay_inside_the_signal() {
    let n = 300;
    let marks: Vec<bool> = (0..n).map(|i| i % 37 == 0 || i % 53 == 1 || i > 290).collect();
    for window in [2usize, 4, 8, 16, 40] {
        for c in declick_plan(&marks, window) {
            assert!(c.start < c.end && c.end <= n);
            if c.interior {
                assert!(c.start > 0 && c.end < n);
            }
        }
    }
}

#[test]
fn hard_clipped_sine_flags_declip() {
    let mut audio = test_tone(48_000, 1000.0, 1.0, 0.0);
    for s in &mut audio.channels[0] {
        *s = (*s * 4.0).clamp(-1.0, 1.0);
    }
    let marks: Vec<Vec<i8>> = audio.channels.iter().map(|c| clip_marks(c)).collect();
    let (clipped_samples, clipped_runs) = clip_runs(&marks);
    assert!(clipped_runs > 0, "runs {}", clipped_runs);
    assert!(clipped_samples > 100, "samples {}", clipped_samples);
    let peak = audio.channels[0].iter().fold(0.0f32, |m, s| m.max(s.abs()));
    let issues = suggested_issues(clipped_runs, 20.0 * peak.log10() > 0.0, false, false, false);
    let hints: Vec<Suggestion> = issues.into_iter().map(|i| Suggestion::for_issue(i, String::new())).collect();
    assert!(hints.iter().any(|h| h.command == "declip"), "{hints:?}");
    assert_eq!(hints[0].invocation("mix.wav"), "cathar declip mix.wav");
}

#[test]
fn voice_frames_bridge_gaps_and_drop_short_runs() {
    let t = true;
    let f = false;
    let v = vec![t, f, f, t, t, t, f, f, f, f, t, f];
    assert_eq!(
        smooth_voice_frames(&v, 2, 2),
        vec![t, t, t, t, t, f, f, f, f, f, f, f]
    );
    assert_eq!(
        smooth_voice_frames(&v, 2, 1),
        vec![t, t, t, t, t, t, f, f, f, f, t, f]
    );
    assert_eq!(
        smooth_voice_frames(&v, 0, 2),
        vec![f, f, f, t, t, f, f, f, f, f, f, f]
    );
    assert_eq!(smooth_voice_frames(&vec![], 3, 2), vec![]);
}
