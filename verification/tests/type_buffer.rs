use bevy_voxel_engine::math::{IVec3, Mat3, Vec3};
use bevy_voxel_engine::type_buffer::{
    CapacityError, HeaderEntry, TypeBuffer, MAX_DATA_WORDS, MAX_OFFSET,
};

#[test]
fn empty_buffer_finishes_to_a_zero_count() {
    let buffer = TypeBuffer::new();
    assert_eq!(buffer.object_count(), 0);
    assert_eq!(buffer.data_len(), 0);
    assert_eq!(buffer.finish(), Ok(vec![0]));
}

#[test]
fn header_entry_packs_offset_low_and_tag_high() {
    let entry = HeaderEntry { offset: 0x00AB_CDEF, tag: 0x12 };
    assert_eq!(entry.pack(), 0x12AB_CDEF);
    assert_eq!(HeaderEntry::unpack(0x12AB_CDEF), entry);
    assert_eq!(HeaderEntry::unpack(0xFF00_0001), HeaderEntry { offset: 1, tag: 255 });
    assert_eq!(HeaderEntry { offset: 0, tag: 0 }.pack(), 0);
}

#[test]
fn finish_moves_offsets_past_count_and_header() {
    let mut buffer = TypeBuffer::new();
    buffer.push_object(0).unwrap();
    buffer.push_u32(10).unwrap();
    buffer.push_u32(11).unwrap();
    buffer.push_object(3).unwrap();
    buffer.push_u32(12).unwrap();
    assert_eq!(buffer.object_count(), 2);
    assert_eq!(buffer.data_len(), 3);
    let words = buffer.finish().unwrap();
    // count, two entries (offsets 0 and 2 moved by 3), then the payload
    assert_eq!(words, vec![2, 3, (3 << 24) | 5, 10, 11, 12]);
}

#[test]
fn relocated_entry_minus_count_plus_one_is_the_entry_before() {
    let mut buffer = TypeBuffer::new();
    let mut before = Vec::new();
    for i in 0..50u32 {
        before.push(HeaderEntry { offset: buffer.data_len() as u32, tag: (i % 4) as u8 }.pack());
        buffer.push_object((i % 4) as u8).unwrap();
        for k in 0..(i % 7) {
            buffer.push_u32(i * 100 + k).unwrap();
        }
    }
    let words = buffer.finish().unwrap();
    let count = words[0];
    assert_eq!(count, 50);
    for i in 0..50usize {
        assert_eq!(words[1 + i] - (count + 1), before[i]);
    }
}

#[test]
fn signed_coordinates_are_stored_in_twos_complement() {
    let mut buffer = TypeBuffer::new();
    buffer.push_object(1).unwrap();
    buffer.push_ivec3(IVec3::new(-1, i32::MIN, 7)).unwrap();
    buffer.push_ivec3(IVec3 { x: i32::MAX, y: -2, z: 0 }).unwrap();
    let words = buffer.finish().unwrap();
    assert_eq!(
        words,
        vec![1, (1 << 24) | 2, 0xFFFF_FFFF, 0x8000_0000, 7, 0x7FFF_FFFF, 0xFFFF_FFFE, 0]
    );
}

#[test]
fn floats_are_stored_bit_for_bit() {
    let mut buffer = TypeBuffer::new();
    buffer.push_object(0).unwrap();
    let v = Vec3::new(1.5f32.to_bits(), (-0.0f32).to_bits(), f32::NAN.to_bits());
    buffer.push_vec3(v).unwrap();
    let words = buffer.finish().unwrap();
    assert_eq!(words[2], 0x3FC0_0000);
    assert_eq!(words[3], 0x8000_0000);
    assert_eq!(words[4], f32::NAN.to_bits());
}

#[test]
fn matrix_is_stored_by_columns() {
    let mut buffer = TypeBuffer::new();
    buffer.push_object(0).unwrap();
    let m = Mat3::from_cols(Vec3::new(1, 2, 3), Vec3::new(4, 5, 6), Vec3::new(7, 8, 9));
    buffer.push_mat3(m).unwrap();
    assert_eq!(buffer.data_len(), 9);
    let words = buffer.finish().unwrap();
    assert_eq!(words, vec![1, 2, 1, 2, 3, 4, 5, 6, 7, 8, 9]);
}

#[test]
fn push_words_appends_all_or_nothing() {
    let mut buffer = TypeBuffer::new();
    buffer.push_object(9).unwrap();
    buffer.push_words(&vec![5, 6, 7]).unwrap();
    assert_eq!(buffer.data_len(), 3);
    let too_many = vec![0u32; MAX_DATA_WORDS - 2];
    assert_eq!(buffer.push_words(&too_many), Err(CapacityError));
    assert_eq!(buffer.data_len(), 3);
    assert_eq!(buffer.finish().unwrap(), vec![1, (9 << 24) | 2, 5, 6, 7]);
}

#[test]
fn exactly_two_to_the_24_words_fit_and_one_more_does_not() {
    let mut buffer = TypeBuffer::new();
    buffer.push_object(2).unwrap();
    let chunk = vec![0xABCD_u32; 1 << 20];
    for _ in 0..15 {
        buffer.push_words(&chunk).unwrap();
    }
    let rest = vec![1u32; (1 << 20) - 1];
    buffer.push_words(&rest).unwrap();
    assert_eq!(buffer.data_len(), MAX_DATA_WORDS - 1);
    assert!(buffer.has_room(1));
    assert!(!buffer.has_room(2));
    assert_eq!(buffer.push_vec3(Vec3::new(0, 0, 0)), Err(CapacityError));
    assert_eq!(buffer.push_ivec3(IVec3::new(0, 0, 0)), Err(CapacityError));
    assert_eq!(buffer.push_u32(77), Ok(()));
    assert_eq!(buffer.data_len(), 1 << 24);
    // one word beyond the limit is refused and leaves the buffer as it was
    assert_eq!(buffer.push_u32(78), Err(CapacityError));
    assert_eq!(buffer.push_words(&vec![1]), Err(CapacityError));
    assert_eq!(buffer.data_len(), 1 << 24);
    // an object that would begin at offset 2^24 is refused as well
    assert_eq!(buffer.push_object(0), Err(CapacityError));
    assert_eq!(buffer.object_count(), 1);
    let words = buffer.finish().unwrap();
    assert_eq!(words.len(), 2 + (1 << 24));
    assert_eq!(words[0], 1);
    assert_eq!(words[1], (2 << 24) | 2);
    assert_eq!(words[2], 0xABCD);
    assert_eq!(words[words.len() - 1], 77);
}

#[test]
fn finish_refuses_an_offset_that_leaves_24_bits_when_moved() {
    let mut buffer = TypeBuffer::new();
    buffer.push_object(0).unwrap();
    let chunk = vec![0u32; MAX_OFFSET as usize - 3];
    buffer.push_words(&chunk).unwrap();
    buffer.push_object(1).unwrap();
    // two objects: the second begins at 2^24 - 4, and moved by 3 it still fits
    assert_eq!(buffer.object_count(), 2);
    assert!(buffer.finish().is_ok());

    let mut buffer = TypeBuffer::new();
    buffer.push_object(0).unwrap();
    let chunk = vec![0u32; MAX_OFFSET as usize - 2];
    buffer.push_words(&chunk).unwrap();
    buffer.push_object(1).unwrap();
    // now it begins at 2^24 - 3, and moved by 3 it would be 2^24
    assert_eq!(buffer.finish(), Err(CapacityError));
}

#[test]
fn a_header_only_buffer_keeps_empty_objects() {
    let mut buffer = TypeBuffer::new();
    buffer.push_object(7).unwrap();
    buffer.push_object(8).unwrap();
    buffer.push_object(9).unwrap();
    assert_eq!(
        buffer.finish().unwrap(),
        vec![3, (7 << 24) | 4, (8 << 24) | 4, (9 << 24) | 4]
    );
}
