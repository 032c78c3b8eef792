use asr_rs::audio::{
    choose_device, drain_s16le, encode_s16le, needs_resample, sample_ring, ChunkBuffer,
    DeviceChoice, RESAMPLER_CHUNK_SIZE, RESAMPLER_SUB_CHUNKS, RING_BUFFER_CAPACITY,
    TARGET_SAMPLE_RATE,
};

#[test]
fn samples_become_little_endian_bytes() {
    assert_eq!(encode_s16le(&[]), Vec::<u8>::new());
    assert_eq!(
        encode_s16le(&[0, 1, -1, 258, i16::MAX, i16::MIN]),
        vec![0, 0, 1, 0, 255, 255, 2, 1, 255, 127, 0, 128]
    );
}

#[test]
fn every_sample_reads_back() {
    for sample in i16::MIN..=i16::MAX {
        let bytes = encode_s16le(&[sample]);
        assert_eq!(bytes, sample.to_le_bytes().to_vec());
        assert_eq!(i16::from_le_bytes([bytes[0], bytes[1]]), sample);
    }
}

#[test]
fn twenty_milliseconds_are_640_bytes() {
    let (mut producer, mut consumer) = sample_ring();
    assert_eq!(producer.push(&[7; 320]), 320);
    assert_eq!(drain_s16le(&mut consumer).len(), 640);
}

#[test]
fn drain_gives_what_was_pushed_in_order() {
    let (mut producer, mut consumer) = sample_ring();
    assert!(drain_s16le(&mut consumer).is_empty());
    producer.push(&[1, -2]);
    producer.push(&[300]);
    assert_eq!(drain_s16le(&mut consumer), vec![1, 0, 254, 255, 44, 1]);
    assert!(drain_s16le(&mut consumer).is_empty());
    producer.push(&[5]);
    assert_eq!(drain_s16le(&mut consumer), vec![5, 0]);
}

#[test]
fn reading_takes_the_oldest_samples() {
    let (mut producer, mut consumer) = sample_ring();
    producer.push(&[1, 2, 3, 4]);
    assert_eq!(consumer.fetch(), 4);
    assert_eq!(consumer.read(3), vec![1, 2, 3]);
    producer.push(&[5]);
    assert_eq!(consumer.fetch(), 2);
    assert_eq!(consumer.read(2), vec![4, 5]);
    assert_eq!(consumer.fetch(), 0);
}

#[test]
fn full_ring_drops_what_does_not_fit() {
    let (mut producer, mut consumer) = sample_ring();
    let many = vec![9; RING_BUFFER_CAPACITY - 1];
    assert_eq!(producer.push(&many), RING_BUFFER_CAPACITY - 1);
    assert_eq!(producer.push(&[1, 2, 3]), 1);
    assert_eq!(producer.push(&[4]), 0);
    let bytes = drain_s16le(&mut consumer);
    assert_eq!(bytes.len(), 2 * RING_BUFFER_CAPACITY);
    assert_eq!(bytes[bytes.len() - 2..], [1, 0]);
    assert_eq!(producer.push(&[4]), 1);
    assert_eq!(drain_s16le(&mut consumer), vec![4, 0]);
}

#[test]
fn ring_wraps_around() {
    let (mut producer, mut consumer) = sample_ring();
    let block: Vec<i16> = (0..30_000).collect();
    let expected = encode_s16le(&block);
    for _ in 0..40 {
        assert_eq!(producer.push(&block), block.len());
        assert_eq!(drain_s16le(&mut consumer), expected);
    }
}

#[test]
fn chunks_hold_every_sample_once() {
    let mut buffer: ChunkBuffer<u32> = ChunkBuffer::new(4);
    assert!(buffer.take_chunks(&[]).is_empty());
    assert!(buffer.take_chunks(&[1, 2, 3]).is_empty());
    assert_eq!(buffer.waiting, vec![1, 2, 3]);
    assert_eq!(buffer.take_chunks(&[4]), vec![vec![1, 2, 3, 4]]);
    assert!(buffer.waiting.is_empty());
    let chunks = buffer.take_chunks(&[5, 6, 7, 8, 9, 10, 11, 12, 13]);
    assert_eq!(chunks, vec![vec![5, 6, 7, 8], vec![9, 10, 11, 12]]);
    assert_eq!(buffer.waiting, vec![13]);
}

#[test]
fn float_samples_are_grouped_too() {
    let mut buffer: ChunkBuffer<f32> = ChunkBuffer::new(2);
    assert_eq!(buffer.take_chunks(&[0.5, -0.5, 1.0]), vec![vec![0.5, -0.5]]);
    assert_eq!(buffer.waiting, vec![1.0]);
}

#[test]
fn only_mono_at_the_target_rate_goes_straight_through() {
    assert!(!needs_resample(16_000, 1));
    assert!(!needs_resample(16_000, 0));
    assert!(needs_resample(16_000, 2));
    assert!(needs_resample(48_000, 1));
    assert!(needs_resample(8_000, 6));
}

#[test]
fn devices_are_chosen_by_part_of_their_name() {
    let names: Vec<String> =
        ["Built-in", "USB Microphone", "Other USB"].map(String::from).to_vec();
    assert_eq!(choose_device("default", &names), DeviceChoice::SystemDefault);
    assert_eq!(choose_device("default", &[]), DeviceChoice::SystemDefault);
    assert_eq!(choose_device("USB", &names), DeviceChoice::Listed(1));
    assert_eq!(choose_device("Other", &names), DeviceChoice::Listed(2));
    assert_eq!(choose_device("", &names), DeviceChoice::Listed(0));
    assert_eq!(choose_device("usb", &names), DeviceChoice::NotFound);
    assert_eq!(choose_device("USB", &[]), DeviceChoice::NotFound);
}

#[test]
fn audio_constants() {
    assert_eq!(TARGET_SAMPLE_RATE, 16_000);
    assert_eq!(RING_BUFFER_CAPACITY, 512 * 1024);
    assert_eq!(RESAMPLER_CHUNK_SIZE, 1024);
    assert_eq!(RESAMPLER_SUB_CHUNKS, 2);
}

#[test]
fn reads_give_back_writes_in_any_rhythm() {
    let (mut producer, mut consumer) = sample_ring();
    let (mut written, mut bytes): (Vec<i16>, Vec<u8>) = (Vec::new(), Vec::new());
    for n in 0..200i16 {
        let samples: Vec<i16> = (0..n).map(|k| k * 31 - n).collect();
        assert_eq!(producer.push(&samples), samples.len());
        written.extend(&samples);
        if n % 3 == 0 {
            bytes.extend(drain_s16le(&mut consumer));
        } else if n % 5 == 0 {
            let known = consumer.fetch();
            bytes.extend(encode_s16le(&consumer.read(known / 2)));
        }
    }
    bytes.extend(drain_s16le(&mut consumer));
    assert_eq!(bytes, encode_s16le(&written));
    assert_eq!(consumer.fetch(), 0);
}
