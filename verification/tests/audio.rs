//! Audio preprocessing tests: channel downmix, linear resampling, and
//! framing.

use rtp_opus::convert_to_mono;
use rtp_opus::convert_to_target_format;
use rtp_opus::resample_linear;
use rtp_opus::AudioData;
use rtp_opus::SAMPLES_PER_FRAME;

#[test]
fn test_convert_to_mono_stereo() {
    // Stereo: [L1, R1, L2, R2, L3, R3]
    let stereo = vec![100, 200, 300, 400, 500, 600];
    let mono = convert_to_mono(&stereo, 2);

    // Should average each pair
    assert_eq!(mono, vec![150, 350, 550]);
}

#[test]
fn test_convert_to_mono_quad() {
    let quad = vec![100, 200, 300, 400]; // One quad frame
    let mono = convert_to_mono(&quad, 4);

    assert_eq!(mono.len(), 1);
    assert_eq!(mono[0], 250); // Average of 4 channels
}

#[test]
fn test_resample_linear_upsample() {
    let samples = vec![0, 1000, 2000];
    let resampled = resample_linear(&samples, 8000, 16000);

    // Should approximately double the sample count
    assert!(resampled.len() >= 5 && resampled.len() <= 7);
}

#[test]
fn test_resample_linear_downsample() {
    let samples = vec![0, 500, 1000, 1500, 2000];
    let resampled = resample_linear(&samples, 16000, 8000);

    // Should approximately halve the sample count
    assert!(resampled.len() >= 2 && resampled.len() <= 3);
}

#[test]
fn test_resample_linear_same_rate() {
    let samples = vec![100, 200, 300];
    let resampled = resample_linear(&samples, 16000, 16000);

    assert_eq!(resampled, samples);
}

#[test]
fn test_resample_linear_interpolates() {
    // Doubling the rate interleaves the exact midpoints.
    let samples = vec![0, 100, 200];
    let resampled = resample_linear(&samples, 8000, 16000);

    assert_eq!(resampled.len(), 6);
    assert_eq!(resampled[0], 0);
    assert_eq!(resampled[1], 50);
    assert_eq!(resampled[2], 100);
    assert_eq!(resampled[3], 150);
    assert_eq!(resampled[4], 200);
    assert_eq!(resampled[5], 200); // past the last sample: copies it
}

#[test]
fn test_convert_to_target_format_passthrough() {
    // Mono 16 kHz input needs no work.
    let samples = vec![5i16, -7, 9];
    assert_eq!(convert_to_target_format(&samples, 1, 16000), samples);
}

#[test]
fn test_convert_to_target_format_downmix() {
    // Stereo at the target rate: only the downmix applies.
    let stereo = vec![100i16, 200, 300, 400];
    assert_eq!(convert_to_target_format(&stereo, 2, 16000), vec![150, 350]);
}

#[test]
fn test_convert_to_target_format_resamples() {
    // Mono at half the rate: the sample count doubles.
    let samples = vec![0i16, 1000, 2000];
    let converted = convert_to_target_format(&samples, 1, 8000);
    assert_eq!(converted.len(), 6);
    assert_eq!(converted[0], 0);
    assert_eq!(converted[1], 500);
}

#[test]
fn test_audio_data_frames() {
    let samples = vec![0i16; 640]; // 2 complete frames
    let audio = AudioData { samples, original_sample_rate: 16000, original_channels: 1 };

    let frames: Vec<_> = audio.frames();
    assert_eq!(frames.len(), 2);
    assert_eq!(frames[0].len(), SAMPLES_PER_FRAME);
    assert_eq!(frames[1].len(), SAMPLES_PER_FRAME);
}

#[test]
fn test_audio_data_frame_count() {
    let samples = vec![0i16; 500]; // 1.56 frames
    let audio = AudioData { samples, original_sample_rate: 16000, original_channels: 1 };

    assert_eq!(audio.frame_count(), 2); // Rounds up
}

#[test]
fn test_partial_trailing_frame() {
    let samples = vec![7i16; 500];
    let audio = AudioData { samples, original_sample_rate: 16000, original_channels: 1 };

    let frames = audio.frames();
    assert_eq!(frames.len(), 2);
    assert_eq!(frames[0].len(), 320);
    assert_eq!(frames[1].len(), 180);
}
