use ofplayer::dsd::{
    dsd_sample_rate_from_multiplier, normalize_channel_count, pcm_sample_rate_for, DsdDecimator,
};

#[test]
fn dsd_sample_rate_scales_from_dsd64() {
    assert_eq!(dsd_sample_rate_from_multiplier(4).unwrap(), 11_289_600);
}

#[test]
fn dsd_sample_rate_rejects_non_positive_multipliers() {
    assert!(dsd_sample_rate_from_multiplier(0).is_err());
    assert!(dsd_sample_rate_from_multiplier(-2).is_err());
    assert_eq!(dsd_sample_rate_from_multiplier(1).unwrap(), 2_822_400);
}

#[test]
fn channel_counts_must_fit() {
    assert_eq!(normalize_channel_count(2).unwrap(), 2);
    assert!(normalize_channel_count(0).is_err());
    assert!(pcm_sample_rate_for(2_822_400) > 0);
}

#[test]
fn dsd_bits_become_samples_per_64() {
    let mut decimator = DsdDecimator::new(2);
    assert_eq!(decimator.channel_count(), 2);
    let mut out = Vec::new();
    let mut frames = Vec::new();
    for _ in 0..8 {
        frames.push(0xFF);
        frames.push(0x00);
    }
    decimator.push_frames(&frames, &mut out);
    assert_eq!(out, vec![64, -64]);

    let mut mono = DsdDecimator::new(1);
    let mut samples = Vec::new();
    mono.push_frames(&[0xAA; 7], &mut samples);
    assert!(samples.is_empty());
    mono.push_frames(&[0xAA, 0xFF], &mut samples);
    assert_eq!(samples, vec![0]);
    mono.reset();
    mono.push_frames(&[0x0F; 8], &mut samples);
    assert_eq!(samples, vec![0, 0]);
}

#[test]
fn dsd_partial_frames_are_left_out() {
    let mut decimator = DsdDecimator::new(2);
    let mut out = Vec::new();
    decimator.push_frames(&[0xFF; 15], &mut out);
    assert!(out.is_empty());
    let mut one = Vec::new();
    decimator.push_frames(&[0xFF, 0xFF, 0xFF], &mut one);
    assert_eq!(one, vec![64, 64]);
}
