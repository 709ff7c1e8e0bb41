use radioxide::mixer::{apply_gain, mix_batch, mixer_tick, soft_clip, sync_counts, take_batch};
use radioxide::sample::{GAIN_SCALE, SCALE};

#[test]
fn loud_sum_soft_clips_to_six_and_a_half() {
    // mic 0.7 and audio 0.6 at full gain sum to 1.3 and clip to
    // 0.5 * (1.3 / 1.0 * 10) = 6.5
    let mic = vec![7_000_000i64];
    let audio = vec![6_000_000i64];
    let out = mix_batch(&mic, &audio, GAIN_SCALE, GAIN_SCALE);
    assert_eq!(out, vec![65_000_000]);
}

#[test]
fn noise_gate_drops_quiet_mic_samples() {
    // 100 silent samples (0.005) between two loud ones (0.3): after the
    // gate the batch holds exactly the two loud ones
    let mut mic: Vec<i64> = vec![3_000_000];
    for _ in 0..100 {
        mic.push(50_000);
    }
    mic.push(3_000_000);
    let audio: Vec<i64> = Vec::new();
    let out = mix_batch(&mic, &audio, GAIN_SCALE, GAIN_SCALE);
    assert_eq!(out, vec![3_000_000, 3_000_000]);
}

#[test]
fn muted_mic_passes_audio_through() {
    // with the microphone gain at zero, the output is the audio stream
    // scaled by the audio gain
    let mic = vec![5_000_000i64, 9_000_000];
    let audio = vec![4_000_000i64, -2_000_000, 1_000_000];
    let out = mix_batch(&mic, &audio, 0, 500);
    assert_eq!(out, vec![2_000_000, -1_000_000, 500_000]);
}

#[test]
fn muted_audio_passes_gated_mic_through() {
    let mic = vec![5_000_000i64, 50_000, -9_000_000];
    let audio = vec![4_000_000i64];
    let out = mix_batch(&mic, &audio, 500, 0);
    assert_eq!(out, vec![2_500_000, -4_500_000]);
}

#[test]
fn gain_scales_towards_zero() {
    assert_eq!(apply_gain(1_000_000, 1000), 1_000_000);
    assert_eq!(apply_gain(1_000_000, 500), 500_000);
    assert_eq!(apply_gain(-1_000_000, 250), -250_000);
    assert_eq!(apply_gain(333, 500), 166);
    assert_eq!(apply_gain(-333, 500), -166);
    assert_eq!(apply_gain(9_999_999, 0), 0);
}

#[test]
fn soft_clip_keeps_unit_range_samples() {
    assert_eq!(soft_clip(SCALE), SCALE);
    assert_eq!(soft_clip(-SCALE), -SCALE);
    assert_eq!(soft_clip(123), 123);
    assert_eq!(soft_clip(0), 0);
}

#[test]
fn soft_clip_preserves_sign_past_full_scale() {
    assert_eq!(soft_clip(13_000_000), 65_000_000);
    assert_eq!(soft_clip(-13_000_000), -65_000_000);
    assert_eq!(soft_clip(20_000_000), 50_000_000);
}

#[test]
fn both_sources_drain_the_smaller_count() {
    assert_eq!(sync_counts(5, 3), (3, 3));
    assert_eq!(sync_counts(2, 9), (2, 2));
    assert_eq!(sync_counts(4, 0), (4, 0));
    assert_eq!(sync_counts(0, 7), (0, 7));
    assert_eq!(sync_counts(0, 0), (0, 0));
}

#[test]
fn take_batch_drains_the_front() {
    let mut q: Vec<i64> = vec![1, 2, 3, 4];
    let batch = take_batch(&mut q, 3);
    assert_eq!(batch, vec![1, 2, 3]);
    assert_eq!(q, vec![4]);
}

#[test]
fn mixer_tick_aligns_by_batch() {
    // both queues non-empty: the tick drains min(3, 2) = 2 from each
    let mut mic: Vec<i64> = vec![3_000_000, 3_000_000, 3_000_000];
    let mut audio: Vec<i64> = vec![1_000_000, 1_000_000];
    let out = mixer_tick(&mut mic, &mut audio, GAIN_SCALE, GAIN_SCALE);
    assert_eq!(out, vec![4_000_000, 4_000_000]);
    assert_eq!(mic, vec![3_000_000]);
    assert_eq!(audio, Vec::<i64>::new());
}

#[test]
fn mixer_tick_takes_all_of_a_lone_source() {
    let mut mic: Vec<i64> = Vec::new();
    let mut audio: Vec<i64> = vec![1_000_000, 2_000_000];
    let out = mixer_tick(&mut mic, &mut audio, GAIN_SCALE, GAIN_SCALE);
    assert_eq!(out, vec![1_000_000, 2_000_000]);
    assert!(audio.is_empty());
}
