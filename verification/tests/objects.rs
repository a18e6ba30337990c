use bevy_voxel_engine::objects::{decode_objects, encode_objects, read_entry, TaggedObject};
use bevy_voxel_engine::type_buffer::{CapacityError, HeaderEntry};

fn object(tag: u8, payload: Vec<u32>) -> TaggedObject {
    TaggedObject { tag, payload }
}

#[test]
fn no_objects_encode_to_a_zero_count() {
    let words = encode_objects(&Vec::new()).unwrap();
    assert_eq!(words, vec![0]);
    assert_eq!(decode_objects(&words), Some(Vec::new()));
}

#[test]
fn objects_are_laid_out_behind_the_header() {
    let objects = vec![object(1, vec![100, 101]), object(0, vec![]), object(3, vec![102])];
    let words = encode_objects(&objects).unwrap();
    assert_eq!(
        words,
        vec![3, (1 << 24) | 4, 6, (3 << 24) | 6, 100, 101, 102]
    );
    assert_eq!(read_entry(&words, 0), Some(HeaderEntry { offset: 4, tag: 1 }));
    assert_eq!(read_entry(&words, 2), Some(HeaderEntry { offset: 6, tag: 3 }));
    assert_eq!(read_entry(&words, 6), None);
    assert_eq!(decode_objects(&words), Some(objects));
}

#[test]
fn ten_thousand_objects_come_back_bit_for_bit() {
    let mut state: u32 = 0x1234_5678;
    let mut next = move || {
        state ^= state << 13;
        state ^= state >> 17;
        state ^= state << 5;
        state
    };
    let mut objects = Vec::new();
    for _ in 0..10000 {
        let tag = (next() % 4) as u8;
        let len = (next() % 23) as usize;
        let mut payload = Vec::new();
        for _ in 0..len {
            payload.push(next());
        }
        objects.push(object(tag, payload));
    }
    let words = encode_objects(&objects).unwrap();
    let count = words[0] as usize;
    assert_eq!(count, 10000);
    // by the offset and tag formulas
    for (i, o) in objects.iter().enumerate() {
        let entry = words[1 + i];
        assert_eq!((entry >> 24) as u8, o.tag);
        let at = (entry & 0x00FF_FFFF) as usize;
        assert_eq!(&words[at..at + o.payload.len()], &o.payload[..]);
    }
    // and by the decoder
    assert_eq!(decode_objects(&words), Some(objects));
}

#[test]
fn round_trip_of_every_small_count() {
    for n in 0..40u32 {
        let objects: Vec<TaggedObject> = (0..n)
            .map(|i| object((i % 4) as u8, (0..(i % 5)).map(|k| i * 1000 + k).collect()))
            .collect();
        let words = encode_objects(&objects).unwrap();
        assert_eq!(decode_objects(&words), Some(objects));
    }
}

#[test]
fn objects_that_do_not_fit_are_refused() {
    let big = object(0, vec![0; (1 << 24) + 1]);
    assert_eq!(encode_objects(&vec![big]), Err(CapacityError));
    // the last object would begin at 2^24 - 3 and cannot be moved by 3
    let objects = vec![object(0, vec![0; (1 << 24) - 3]), object(1, vec![5])];
    assert_eq!(encode_objects(&objects), Err(CapacityError));
    // the same with exactly 2^24 words in all
    let objects = vec![object(0, vec![0; (1 << 24) - 3]), object(1, vec![5, 6, 7])];
    assert_eq!(encode_objects(&objects), Err(CapacityError));
    // one word less and it fits
    let objects = vec![object(0, vec![0; (1 << 24) - 4]), object(1, vec![5])];
    let words = encode_objects(&objects).unwrap();
    assert_eq!(words[2], (1 << 24) | 0x00FF_FFFF);
    assert_eq!(words[0x00FF_FFFF], 5);
}

#[test]
fn a_single_object_of_two_to_the_24_words_is_encoded() {
    let words = encode_objects(&vec![object(3, vec![9; 1 << 24])]).unwrap();
    assert_eq!(words.len(), (1 << 24) + 2);
    assert_eq!(words[1], (3 << 24) | 2);
}

#[test]
fn words_that_are_no_buffer_are_not_decoded() {
    assert_eq!(decode_objects(&Vec::new()), None);
    // the count says two entries, but only one is there
    assert_eq!(decode_objects(&vec![2, 3]), None);
    // the offset points into the header
    assert_eq!(decode_objects(&vec![1, 1, 7]), None);
    // the offset points beyond the buffer
    assert_eq!(decode_objects(&vec![1, 4, 7]), None);
    // the second object begins before the first
    assert_eq!(decode_objects(&vec![2, 4, 3, 7, 8]), None);
    // words before the first payload belong to no object
    assert_eq!(
        decode_objects(&vec![1, (2 << 24) | 3, 7, 8]),
        Some(vec![object(2, vec![8])])
    );
}
