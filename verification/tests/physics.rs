use bevy_voxel_engine::math::{IVec3, Mat3, Vec3, ONE_BITS, ZERO_BITS};
use bevy_voxel_engine::physics::{
    read_body, BOX_BODY_WORDS, POINT_BODY_WORDS, TAG_BOX_BODY, TAG_POINT_BODY,
};
use bevy_voxel_engine::{
    extract_physics_data, insert_physics_data, BoxCollider, CapacityError, ExtractedPhysicsData,
    PhysicsBody, ReadbackError, Velocity,
};
use std::collections::HashMap;

fn bits(x: f32, y: f32, z: f32) -> Vec3 {
    Vec3::new(x.to_bits(), y.to_bits(), z.to_bits())
}

fn point(entity: u64, at: f32) -> PhysicsBody {
    PhysicsBody {
        entity,
        translation: bits(at, at + 1.0, at + 2.0),
        velocity: Velocity::new(bits(-at, 0.25, 8.0)),
        collider: None,
    }
}

fn boxed(entity: u64, at: f32) -> PhysicsBody {
    PhysicsBody { collider: Some(BoxCollider { half_size: IVec3::new(2, -3, 4) }), ..point(entity, at) }
}

fn identity_words() -> Vec<u32> {
    vec![ONE_BITS, 0, 0, 0, ONE_BITS, 0, 0, 0, ONE_BITS]
}

#[test]
fn a_new_velocity_has_hit_nothing_and_is_not_rotated() {
    let v = Velocity::new(bits(1.0, 2.0, 3.0));
    assert_eq!(v.velocity, bits(1.0, 2.0, 3.0));
    assert_eq!(v.hit_normal, Vec3::new(ZERO_BITS, ZERO_BITS, ZERO_BITS));
    assert_eq!(v.hit_normal, bits(0.0, 0.0, 0.0));
    assert_eq!(
        v.portal_rotation,
        Mat3::from_cols(bits(1.0, 0.0, 0.0), bits(0.0, 1.0, 0.0), bits(0.0, 0.0, 1.0))
    );
    assert_eq!(ONE_BITS, 1.0f32.to_bits());
}

#[test]
fn no_bodies_make_a_buffer_of_one_word() {
    let extracted = extract_physics_data(&Vec::new()).unwrap();
    assert_eq!(extracted.data, vec![0]);
    assert!(extracted.entities.is_empty());
}

#[test]
fn point_and_box_bodies_are_written_with_their_layout() {
    let mut moving = point(70, 1.0);
    // what the device wrote last frame is not sent again
    moving.velocity.hit_normal = bits(0.0, 1.0, 0.0);
    moving.velocity.portal_rotation = Mat3::from_cols(bits(0.0, 1.0, 0.0), bits(1.0, 0.0, 0.0), bits(0.0, 0.0, 1.0));
    let bodies = vec![moving, boxed(3, 5.0)];
    let extracted = extract_physics_data(&bodies).unwrap();
    assert_eq!(POINT_BODY_WORDS, 18);
    assert_eq!(BOX_BODY_WORDS, 21);
    let mut expected = vec![
        2,
        ((TAG_POINT_BODY as u32) << 24) | 3,
        ((TAG_BOX_BODY as u32) << 24) | 21,
    ];
    expected.extend([1.0f32, 2.0, 3.0, -1.0, 0.25, 8.0, 0.0, 0.0, 0.0].map(f32::to_bits));
    expected.extend(identity_words());
    expected.extend([5.0f32, 6.0, 7.0, -5.0, 0.25, 8.0, 0.0, 0.0, 0.0].map(f32::to_bits));
    expected.extend(identity_words());
    expected.extend([2u32, 0xFFFF_FFFD, 4]);
    assert_eq!(extracted.data, expected);
    assert_eq!(extracted.data.len(), 3 + 18 + 21);
    let mut slots = HashMap::new();
    slots.insert(70u64, 0usize);
    slots.insert(3u64, 1usize);
    assert_eq!(extracted.entities, slots);
}

#[test]
fn an_entity_that_occurs_twice_keeps_its_last_slot() {
    let bodies = vec![point(5, 0.0), point(6, 1.0), point(5, 2.0)];
    let extracted = extract_physics_data(&bodies).unwrap();
    assert_eq!(extracted.entities.len(), 2);
    assert_eq!(extracted.entities[&5], 2);
    assert_eq!(extracted.entities[&6], 1);
}

#[test]
fn bodies_that_do_not_fit_are_refused() {
    // 21 words each: 2^24 / 21 boxes would still fill the payload, but the
    // header table pushes the last offset out of its 24 bits before that
    let most = ((1usize << 24) - 2 + 21) / 22;
    let bodies = vec![boxed(1, 0.0); most];
    assert!(extract_physics_data(&bodies).is_ok());
    let bodies = vec![boxed(1, 0.0); most + 1];
    assert_eq!(extract_physics_data(&bodies).err(), Some(CapacityError));
}

#[test]
fn readback_is_a_no_op_while_compute_is_disabled() {
    let bodies = vec![point(1, 1.0), point(2, 2.0), point(3, 3.0), boxed(4, 4.0)];
    let extracted = extract_physics_data(&bodies).unwrap();
    // the device would have moved everything
    let mut mapped = extracted.data.clone();
    for word in mapped.iter_mut().skip(5) {
        *word = 9.75f32.to_bits();
    }
    let mut host = bodies.clone();
    assert_eq!(insert_physics_data(false, &extracted, &mapped, &mut host), Ok(()));
    assert_eq!(host, bodies);
    assert_eq!(extracted.readback_bytes(false), None);
    // not even words that are no buffer at all are looked at
    assert_eq!(insert_physics_data(false, &extracted, &Vec::new(), &mut host), Ok(()));
    assert_eq!(host, bodies);
}

#[test]
fn readback_is_a_no_op_for_a_buffer_without_bodies() {
    let extracted = extract_physics_data(&Vec::new()).unwrap();
    assert_eq!(extracted.readback_bytes(true), None);
    let mut host = vec![point(1, 1.0)];
    assert_eq!(insert_physics_data(true, &extracted, &vec![0], &mut host), Ok(()));
    assert_eq!(host, vec![point(1, 1.0)]);
}

#[test]
fn readback_asks_for_four_bytes_a_word() {
    let extracted = extract_physics_data(&vec![point(1, 1.0), boxed(2, 2.0)]).unwrap();
    assert_eq!(extracted.readback_bytes(true), Some(4 * (3 + 18 + 21)));
}

#[test]
fn readback_of_an_untouched_buffer_gives_back_what_was_sent() {
    let bodies = vec![point(10, 1.0), boxed(11, 2.0), point(12, 3.0)];
    let extracted = extract_physics_data(&bodies).unwrap();
    let mut host = bodies.clone();
    host[0].translation = bits(100.0, 100.0, 100.0);
    host[1].velocity.hit_normal = bits(1.0, 0.0, 0.0);
    assert_eq!(insert_physics_data(true, &extracted, &extracted.data, &mut host), Ok(()));
    assert_eq!(host, bodies);
    for (slot, body) in bodies.iter().enumerate() {
        assert_eq!(read_body(&extracted.data, slot), Some((body.translation, body.velocity)));
    }
}

#[test]
fn readback_writes_what_the_device_simulated() {
    let bodies = vec![point(10, 1.0), boxed(11, 2.0)];
    let extracted = extract_physics_data(&bodies).unwrap();
    let mut mapped = extracted.data.clone();
    // body 1 begins at word 21: the device moves it, reports a hit and a turn
    for k in 0..18 {
        mapped[21 + k] = (k as f32 + 0.5).to_bits();
    }
    let mut host = bodies.clone();
    assert_eq!(insert_physics_data(true, &extracted, &mapped, &mut host), Ok(()));
    assert_eq!(host[0], bodies[0]);
    assert_eq!(host[1].entity, 11);
    assert_eq!(host[1].collider, bodies[1].collider);
    assert_eq!(host[1].translation, bits(0.5, 1.5, 2.5));
    assert_eq!(host[1].velocity.velocity, bits(3.5, 4.5, 5.5));
    assert_eq!(host[1].velocity.hit_normal, bits(6.5, 7.5, 8.5));
    assert_eq!(
        host[1].velocity.portal_rotation,
        Mat3::from_cols(bits(9.5, 10.5, 11.5), bits(12.5, 13.5, 14.5), bits(15.5, 16.5, 17.5))
    );
}

#[test]
fn a_despawned_entity_receives_no_write_a_frame_later() {
    // frame F: three bodies are extracted
    let frame_f = vec![point(1, 1.0), point(2, 2.0), point(3, 3.0)];
    let extracted = extract_physics_data(&frame_f).unwrap();
    let mut mapped = extracted.data.clone();
    for word in mapped.iter_mut().skip(4) {
        *word = 2.0f32.to_bits();
    }
    // frame F + 1: entity 2 is gone, entity 9 is new
    let mut host = vec![point(3, 3.0), point(9, 9.0), point(1, 1.0)];
    assert!(extracted.entities.contains_key(&2));
    assert_eq!(insert_physics_data(true, &extracted, &mapped, &mut host), Ok(()));
    assert_eq!(host.len(), 3);
    let entities: Vec<u64> = host.iter().map(|b| b.entity).collect();
    assert_eq!(entities, vec![3, 9, 1]);
    // the new entity has no slot and is left alone
    assert_eq!(host[1], point(9, 9.0));
    // the others took the simulated state
    assert_eq!(host[0].translation, bits(2.0, 2.0, 2.0));
    assert_eq!(host[2].translation, bits(2.0, 2.0, 2.0));
}

#[test]
fn a_record_outside_the_mapped_words_is_an_error() {
    let bodies = vec![point(1, 1.0), point(2, 2.0)];
    let extracted = extract_physics_data(&bodies).unwrap();
    let mut host = bodies.clone();
    host[0].translation = bits(7.0, 7.0, 7.0);
    let before = host.clone();
    // the mapped words end in the middle of the second body
    let short: Vec<u32> = extracted.data[..extracted.data.len() - 1].to_vec();
    assert_eq!(insert_physics_data(true, &extracted, &short, &mut host), Err(ReadbackError));
    assert_eq!(host, before);
    // the header entry points beyond the buffer
    let mut wild = extracted.data.clone();
    wild[1] = 0x00FF_FFFF;
    assert_eq!(insert_physics_data(true, &extracted, &wild, &mut host), Err(ReadbackError));
    assert_eq!(host, before);
    // a body whose entity has no slot does not matter
    let mut strangers = vec![point(50, 0.0)];
    assert_eq!(insert_physics_data(true, &extracted, &Vec::new(), &mut strangers), Ok(()));
    assert_eq!(read_body(&short, 1), None);
    assert_eq!(read_body(&short, 0), Some((bodies[0].translation, bodies[0].velocity)));
    assert_eq!(read_body(&extracted.data, 1000), None);
}

#[test]
fn the_tag_bits_of_an_entry_do_not_count_for_the_offset() {
    let bodies = vec![boxed(1, 1.0)];
    let extracted = extract_physics_data(&bodies).unwrap();
    assert_eq!(extracted.data[1] >> 24, 1);
    let mut host = vec![point(1, 0.0)];
    assert_eq!(insert_physics_data(true, &extracted, &extracted.data, &mut host), Ok(()));
    assert_eq!(host[0].translation, bodies[0].translation);
    assert_eq!(host[0].collider, None);
    let data = ExtractedPhysicsData { data: vec![5, 6], entities: HashMap::new() };
    assert_eq!(data.readback_bytes(true), Some(8));
}
