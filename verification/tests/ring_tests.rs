use audio_eq::sample_ring::{capture_block, playback_block, sample_ring, silence_tail};

#[test]
fn ring_carries_what_fits() {
    let (mut w, mut r) = sample_ring(4);
    assert_eq!(capture_block(&mut w, &[1, 2, 3, 4, 5, 6]), 4);
    let mut out = [9u32; 6];
    assert_eq!(playback_block(&mut r, &mut out, 0), 4);
    assert_eq!(out, [1, 2, 3, 4, 0, 0]);
}

#[test]
fn empty_ring_plays_silence() {
    let (_w, mut r) = sample_ring(8);
    let mut out = [5u32; 3];
    assert_eq!(playback_block(&mut r, &mut out, 0), 0);
    assert_eq!(out, [0, 0, 0]);
}

#[test]
fn ring_keeps_order_across_blocks() {
    let (mut w, mut r) = sample_ring(8);
    assert_eq!(capture_block(&mut w, &[1, 2, 3]), 3);
    let mut out = [0u32; 2];
    assert_eq!(playback_block(&mut r, &mut out, 7), 2);
    assert_eq!(out, [1, 2]);
    assert_eq!(capture_block(&mut w, &[4]), 1);
    let mut out = [0u32; 3];
    assert_eq!(playback_block(&mut r, &mut out, 7), 2);
    assert_eq!(out, [3, 4, 7]);
}

#[test]
fn float_samples_travel_as_bits() {
    let (mut w, mut r) = sample_ring(4);
    let block: Vec<u32> = [0.5f32, -1.25].iter().map(|s| s.to_bits()).collect();
    assert_eq!(capture_block(&mut w, &block), 2);
    let mut out = [0u32; 3];
    assert_eq!(playback_block(&mut r, &mut out, 0.0f32.to_bits()), 2);
    let back: Vec<f32> = out.iter().map(|&b| f32::from_bits(b)).collect();
    assert_eq!(back, vec![0.5, -1.25, 0.0]);
}

#[test]
fn silence_tail_keeps_the_front() {
    let mut out = [1, 2, 3, 4];
    silence_tail(&mut out, 1, 0);
    assert_eq!(out, [1, 0, 0, 0]);
    let mut out = [1, 2];
    silence_tail(&mut out, 2, 0);
    assert_eq!(out, [1, 2]);
}

#[test]
fn fresh_ring_takes_a_block_that_fits() {
    let (mut w, _r) = sample_ring(4);
    assert_eq!(capture_block(&mut w, &[1, 2, 3]), 3);
    assert_eq!(capture_block(&mut w, &[4, 5, 6]), 1);
    assert_eq!(capture_block(&mut w, &[7]), 0);
}
