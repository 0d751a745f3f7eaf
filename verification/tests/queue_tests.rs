use audio_eq::sample_queue::{one_second_capacity, SampleQueue};

fn drain<T: Copy>(q: &mut SampleQueue<T>, silence: T) -> Vec<T> {
    let mut out = Vec::new();
    while q.len() > 0 {
        out.push(q.pop_or(silence));
    }
    out
}

#[test]
fn one_second_is_rate_times_channels() {
    assert_eq!(one_second_capacity(48000, 2), 96000);
    assert_eq!(one_second_capacity(44100, 1), 44100);
    assert_eq!(one_second_capacity(u32::MAX, u16::MAX), u32::MAX as u64 * u16::MAX as u64);
    assert_eq!(one_second_capacity(0, 2), 0);
}

#[test]
fn capped_push_keeps_the_newest_samples() {
    let mut q = SampleQueue::new();
    for s in 1..=5 {
        q.push_capped(s, 3);
        assert!(q.len() <= 3);
    }
    assert_eq!(drain(&mut q, 0), vec![3, 4, 5]);
}

#[test]
fn capped_push_below_the_bound_keeps_everything() {
    let mut q = SampleQueue::new();
    q.push_capped(1, 3);
    q.push_capped(2, 3);
    assert_eq!(drain(&mut q, 0), vec![1, 2]);
}

#[test]
fn zero_bound_keeps_nothing() {
    let mut q = SampleQueue::new();
    q.push_capped(1, 0);
    q.push_capped(2, 0);
    assert_eq!(q.len(), 0);
}

#[test]
fn extend_capped_is_pushing_one_by_one() {
    let mut a = SampleQueue::new();
    let mut b = SampleQueue::new();
    let data = [1, 2, 3, 4, 5, 6, 7];
    a.extend_capped(&data, 4);
    for &s in data.iter() {
        b.push_capped(s, 4);
    }
    assert_eq!(drain(&mut a, 0), vec![4, 5, 6, 7]);
    assert_eq!(drain(&mut b, 0), vec![4, 5, 6, 7]);
}

#[test]
fn float_samples_are_carried_unchanged() {
    let mut q: SampleQueue<f32> = SampleQueue::new();
    q.extend_capped(&[0.5, -0.25, 1.0], 2);
    let mut out = [9.0f32; 3];
    q.fill_output(&mut out, 0.0);
    assert_eq!(out, [-0.25, 1.0, 0.0]);
}

#[test]
fn frames_are_queued_in_order() {
    let mut q = SampleQueue::new();
    q.push(0);
    q.push_frames(&[1, 2, 3, 4, 5], 2);
    assert_eq!(drain(&mut q, -1), vec![0, 1, 2, 3, 4, 5]);
}

#[test]
fn frames_wider_than_the_block() {
    let mut q = SampleQueue::new();
    q.push_frames(&[1, 2], 8);
    q.push_frames(&[], 1);
    assert_eq!(drain(&mut q, -1), vec![1, 2]);
}

#[test]
fn pop_gives_silence_when_empty() {
    let mut q = SampleQueue::new();
    assert_eq!(q.pop_or(7), 7);
    q.push(3);
    assert_eq!(q.pop_or(7), 3);
    assert_eq!(q.pop_or(7), 7);
}

#[test]
fn output_is_padded_with_silence() {
    let mut q = SampleQueue::new();
    q.push(1);
    q.push(2);
    let mut out = [9; 4];
    q.fill_output(&mut out, 0);
    assert_eq!(out, [1, 2, 0, 0]);
    assert_eq!(q.len(), 0);
}

#[test]
fn output_shorter_than_queue_leaves_the_rest() {
    let mut q = SampleQueue::new();
    for s in [1, 2, 3] {
        q.push(s);
    }
    let mut out = [9; 2];
    q.fill_output(&mut out, 0);
    assert_eq!(out, [1, 2]);
    assert_eq!(drain(&mut q, 0), vec![3]);
}

#[test]
fn output_replays_input_in_order() {
    let mut q = SampleQueue::new();
    q.push(10);
    q.push_frames(&[11, 12, 13, 14], 2);
    let mut out = [0; 5];
    q.fill_output(&mut out, -1);
    assert_eq!(out, [10, 11, 12, 13, 14]);
    assert_eq!(q.len(), 0);
}

#[test]
fn interleaved_callbacks_lose_nothing() {
    let mut q = SampleQueue::new();
    let mut delivered = Vec::new();
    let mut captured = Vec::new();
    let blocks: [&[i32]; 3] = [&[1, 2, 3], &[4, 5], &[6, 7, 8, 9]];
    for (b, n) in blocks.iter().zip([2usize, 4, 1]) {
        q.push_frames(b, 1);
        captured.extend_from_slice(b);
        let before = q.len();
        let mut out = vec![0; n];
        q.fill_output(&mut out, 0);
        delivered.extend_from_slice(&out[..before.min(n)]);
    }
    let mut rest = Vec::new();
    while q.len() > 0 {
        rest.push(q.pop_or(0));
    }
    delivered.extend(rest);
    assert_eq!(delivered, captured);
}

#[test]
fn interleaved_capped_callbacks_stay_bounded() {
    let mut q = SampleQueue::new();
    for round in 0..10 {
        let block: Vec<i32> = (0..7).map(|i| round * 10 + i).collect();
        q.extend_capped(&block, 5);
        assert!(q.len() <= 5);
        let mut out = [0; 2];
        q.fill_output(&mut out, -1);
        assert!(q.len() <= 5);
    }
}
