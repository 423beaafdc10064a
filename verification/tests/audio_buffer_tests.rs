use deepseek_custom::audio_buffers::{duplicate_channels, PlaybackQueue, RingBuffer};

#[test]
fn ring_buffer_starts_empty() {
    let mut buf: RingBuffer<f32> = RingBuffer::new(4);
    assert_eq!(buf.drain().len(), 0);
}

#[test]
fn ring_buffer_push_overwrites_oldest_when_full() {
    let mut buf = RingBuffer::new(3);
    buf.push_slice(&[1.0f32, 2.0, 3.0, 4.0, 5.0]);
    assert_eq!(buf.drain(), vec![3.0, 4.0, 5.0]);
}

#[test]
fn ring_buffer_drain_empties_the_buffer() {
    let mut buf = RingBuffer::new(4);
    buf.push_slice(&[1.0f32, 2.0]);
    let drained = buf.drain();
    assert_eq!(drained, vec![1.0, 2.0]);
    assert!(buf.drain().is_empty());
}

#[test]
fn ring_buffer_peek_recent_leaves_buffer_intact() {
    let mut buf = RingBuffer::new(4);
    buf.push_slice(&[1.0f32, 2.0, 3.0]);
    let peeked = buf.peek_recent(2);
    assert_eq!(peeked, vec![2.0, 3.0]);
    assert_eq!(buf.drain(), vec![1.0, 2.0, 3.0]);
}

#[test]
fn ring_buffer_peek_recent_clamps_to_available_samples() {
    let mut buf = RingBuffer::new(4);
    buf.push_slice(&[1.0f32, 2.0]);
    let peeked = buf.peek_recent(10);
    assert_eq!(peeked, vec![1.0, 2.0]);
}

#[test]
fn a_ring_fed_in_pieces_keeps_the_newest_samples() {
    let mut buf = RingBuffer::new(4);
    buf.push_slice(&[1i16, 2, 3]);
    buf.push_slice(&[4i16, 5, 6]);
    assert_eq!(buf.drain(), vec![3, 4, 5, 6]);
}

#[test]
fn duplicate_channels_mono_is_unchanged() {
    let input = vec![0.1f32, 0.2, 0.3];
    let out = duplicate_channels(&input, 1);
    assert_eq!(out, input);
}

#[test]
fn duplicate_channels_stereo_interleaves_pairs() {
    let input = vec![0.1f32, 0.2];
    let out = duplicate_channels(&input, 2);
    assert_eq!(out, vec![0.1, 0.1, 0.2, 0.2]);
}

#[test]
fn playback_queue_pop_into_pads_with_silence_when_empty() {
    let mut queue = PlaybackQueue::new();
    queue.push(vec![1.0f32, 2.0]);
    let mut out = vec![0.0f32; 4];
    queue.pop_into(&mut out, 0.0);
    assert_eq!(out, [1.0, 2.0, 0.0, 0.0]);
}

#[test]
fn playback_queue_pop_into_returns_queued_samples_in_order() {
    let mut queue = PlaybackQueue::new();
    queue.push(vec![1.0f32, 2.0, 3.0]);
    let mut out = vec![0.0f32; 2];
    queue.pop_into(&mut out, 0.0);
    assert_eq!(out, [1.0, 2.0]);
    assert!(!queue.is_empty());
}

#[test]
fn playback_queue_clear_drops_everything_queued() {
    let mut queue = PlaybackQueue::new();
    queue.push(vec![1.0f32, 2.0, 3.0]);
    queue.clear();
    assert!(queue.is_empty());
    let mut out = vec![1.0f32; 2];
    queue.pop_into(&mut out, 0.0);
    assert_eq!(out, [0.0, 0.0]);
}

#[test]
fn playback_queue_starts_empty() {
    let queue: PlaybackQueue<f32> = PlaybackQueue::new();
    assert!(queue.is_empty());
}
