//! Physics bodies on their way to the device and back: the bodies of one
//! frame are encoded with a record of which entity went to which header slot,
//! and a frame later the simulated state is read from the mapped buffer into
//! the bodies that are still there.

use crate::components::{BoxCollider, Velocity};
use crate::math::{Mat3, Vec3, ONE_BITS, ZERO_BITS};
use crate::objects::{
    contents_of, encodable, lemma_all_written, lemma_contents_step, lemma_encoded_object,
    lemma_no_room, Object,
};
use crate::type_buffer::{entry_at, CapacityError, HeaderEntry, TypeBuffer, MAX_DATA_WORDS};
use std::collections::HashMap;
use vstd::prelude::*;

verus! {

/// Tag of a body without extent in the physics buffer.
pub const TAG_POINT_BODY: u8 = 0;

/// Tag of a box body in the physics buffer.
pub const TAG_BOX_BODY: u8 = 1;

/// Payload words of a body without extent, and the leading words of a box
/// body: translation, velocity, hit normal, portal rotation.
pub const POINT_BODY_WORDS: usize = 18;

/// Payload words of a box body: those of a point body, then the half extent.
pub const BOX_BODY_WORDS: usize = 21;

/// A physics body of the host: the entity it belongs to, where it is, how it
/// moves, and its extent if it is a box.
#[derive(Clone, Copy, Debug, PartialEq, Eq)]
pub struct PhysicsBody {
    pub entity: u64,
    pub translation: Vec3,
    pub velocity: Velocity,
    pub collider: Option<BoxCollider>,
}

impl PhysicsBody {
    /// The words that every body starts with: translation and velocity as
    /// the host has them, a zero hit normal and an identity rotation for the
    /// device to overwrite.
    pub open spec fn point_words(self) -> Seq<u32> {
        self.translation.words() + self.velocity.velocity.words() + Vec3::zero().words()
            + Mat3::identity().words()
    }

    /// The body as an object of the physics buffer.
    pub open spec fn object(self) -> Object {
        match self.collider {
            None => Object { tag: TAG_POINT_BODY, payload: self.point_words() },
            Some(collider) => Object {
                tag: TAG_BOX_BODY,
                payload: self.point_words() + collider.half_size.words(),
            },
        }
    }
}

/// The bodies as objects, in order.
pub open spec fn body_objects(bodies: Seq<PhysicsBody>) -> Seq<Object> {
    Seq::new(bodies.len(), |i: int| bodies[i].object())
}

/// The header slot of each entity: its place among the bodies. Where an
/// entity occurs more than once, its last place stands.
pub open spec fn index_map(bodies: Seq<PhysicsBody>) -> Map<u64, usize>
    decreases bodies.len(),
{
    if bodies.len() == 0 {
        Map::empty()
    } else {
        index_map(bodies.drop_last()).insert(bodies.last().entity, (bodies.len() - 1) as usize)
    }
}

/// The physics buffer of one frame and the header slot of each entity in it.
pub struct ExtractedPhysicsData {
    pub data: Vec<u32>,
    pub entities: HashMap<u64, usize>,
}

/// Writes one body, or nothing when there is no room for it.
fn write_body(buffer: &mut TypeBuffer, body: &PhysicsBody) -> (result: Result<(), CapacityError>)
    ensures
        result.is_ok() <==> old(buffer)@.takes(body.object().payload.len()),
        result.is_ok() ==> final(buffer)@ == old(buffer)@.with_payload(
            body.object().tag,
            body.object().payload,
        ),
        result.is_err() ==> final(buffer)@ == old(buffer)@,
{
    let zero = Vec3 { x: ZERO_BITS, y: ZERO_BITS, z: ZERO_BITS };
    let identity = Mat3 {
        x_axis: Vec3 { x: ONE_BITS, y: ZERO_BITS, z: ZERO_BITS },
        y_axis: Vec3 { x: ZERO_BITS, y: ONE_BITS, z: ZERO_BITS },
        z_axis: Vec3 { x: ZERO_BITS, y: ZERO_BITS, z: ONE_BITS },
    };
    match body.collider {
        None => {
            assert(body.object().payload.len() == 18);
            if !buffer.has_room(POINT_BODY_WORDS) {
                return Err(CapacityError);
            }
            buffer.push_object(TAG_POINT_BODY)?;
            buffer.push_vec3(body.translation)?;
            buffer.push_vec3(body.velocity.velocity)?;
            buffer.push_vec3(zero)?;
            buffer.push_mat3(identity)?;
            assert(buffer@.data =~= old(buffer)@.data + body.object().payload);
        },
        Some(collider) => {
            assert(body.object().payload.len() == 21);
            if !buffer.has_room(BOX_BODY_WORDS) {
                return Err(CapacityError);
            }
            buffer.push_object(TAG_BOX_BODY)?;
            buffer.push_vec3(body.translation)?;
            buffer.push_vec3(body.velocity.velocity)?;
            buffer.push_vec3(zero)?;
            buffer.push_mat3(identity)?;
            buffer.push_ivec3(collider.half_size)?;
            assert(buffer@.data =~= old(buffer)@.data + body.object().payload);
        },
    }
    Ok(())
}

/// Encodes the bodies of one frame in the order given, a point body under
/// tag 0 and a box body under tag 1, and records for each entity the header
/// slot that its body got. Refused when the bodies do not fit in one buffer.
pub fn extract_physics_data(bodies: &Vec<PhysicsBody>) -> (result: Result<
    ExtractedPhysicsData,
    CapacityError,
>)
    ensures
        result.is_ok() <==> encodable(body_objects(bodies@)),
        result matches Ok(extracted) ==> {
            &&& extracted.data@ == contents_of(body_objects(bodies@)).words()
            &&& extracted.entities@ == index_map(bodies@)
        },
{
    let ghost all = body_objects(bodies@);
    let mut buffer = TypeBuffer::new();
    let mut entities: HashMap<u64, usize> = HashMap::new();
    let mut i: usize = 0;
    proof {
        assert(all.take(0).len() == 0);
        assert(bodies@.take(0).len() == 0);
    }
    while i < bodies.len()
        invariant
            i <= bodies@.len(),
            all == body_objects(bodies@),
            buffer@ == contents_of(all.take(i as int)),
            buffer@.data.len() <= MAX_DATA_WORDS,
            buffer@.header.len() == i,
            entities@ == index_map(bodies@.take(i as int)),
        decreases bodies@.len() - i,
    {
        let body = &bodies[i];
        entities.insert(body.entity, buffer.object_count());
        proof {
            assert(all[i as int] == body.object());
            lemma_contents_step(all, i as int);
            assert(bodies@.take(i + 1).drop_last() =~= bodies@.take(i as int));
            assert(bodies@.take(i + 1).last() == *body);
        }
        if write_body(&mut buffer, body).is_err() {
            proof {
                lemma_no_room(all, i as int);
            }
            return Err(CapacityError);
        }
        i += 1;
    }
    proof {
        assert(all.take(i as int) =~= all);
        assert(bodies@.take(i as int) =~= bodies@);
        lemma_all_written(all);
    }
    match buffer.finish() {
        Ok(data) => Ok(ExtractedPhysicsData { data, entities }),
        Err(e) => Err(e),
    }
}

/// The record of a body cannot be read from the mapped words.
#[derive(Clone, Copy, Debug, PartialEq, Eq, Structural)]
pub struct ReadbackError;

/// The last extracted buffer is read back: the device computes, and the
/// buffer holds at least one word beyond its count.
pub open spec fn reads_back(enable_compute: bool, data_len: nat) -> bool {
    enable_compute && data_len > 1
}

/// The header slot is inside the mapped words, and so are the eighteen words
/// of the body that its entry points to.
pub open spec fn record_in_bounds(mapped: Seq<u32>, slot: int) -> bool {
    slot + 1 < mapped.len() && entry_at(mapped, slot).offset + POINT_BODY_WORDS <= mapped.len()
}

/// The three words from `at` on, as a vector.
pub open spec fn vec3_at(words: Seq<u32>, at: int) -> Vec3 {
    Vec3 { x: words[at], y: words[at + 1], z: words[at + 2] }
}

/// The nine words from `at` on, as a matrix stored by columns.
pub open spec fn mat3_at(words: Seq<u32>, at: int) -> Mat3 {
    Mat3 {
        x_axis: vec3_at(words, at),
        y_axis: vec3_at(words, at + 3),
        z_axis: vec3_at(words, at + 6),
    }
}

/// The translation that the body in header slot `slot` has in the mapped
/// words.
pub open spec fn translation_at(mapped: Seq<u32>, slot: int) -> Vec3 {
    vec3_at(mapped, entry_at(mapped, slot).offset as int)
}

/// The velocity, hit normal and portal rotation that the body in header slot
/// `slot` has in the mapped words.
pub open spec fn velocity_at(mapped: Seq<u32>, slot: int) -> Velocity {
    let at = entry_at(mapped, slot).offset as int;
    Velocity {
        velocity: vec3_at(mapped, at + 3),
        hit_normal: vec3_at(mapped, at + 6),
        portal_rotation: mat3_at(mapped, at + 9),
    }
}

/// Whether the body can be brought up to date: its entity has no slot, or
/// the record in its slot can be read.
pub open spec fn body_readable(
    entities: Map<u64, usize>,
    mapped: Seq<u32>,
    body: PhysicsBody,
) -> bool {
    entities.contains_key(body.entity) ==> record_in_bounds(mapped, entities[body.entity] as int)
}

/// The body after the read-back: with the simulated translation and moving
/// state of its slot, or as it was when its entity has no slot.
pub open spec fn body_after(
    entities: Map<u64, usize>,
    mapped: Seq<u32>,
    body: PhysicsBody,
) -> PhysicsBody {
    if entities.contains_key(body.entity) {
        PhysicsBody {
            entity: body.entity,
            translation: translation_at(mapped, entities[body.entity] as int),
            velocity: velocity_at(mapped, entities[body.entity] as int),
            collider: body.collider,
        }
    } else {
        body
    }
}

/// The bodies after the read-back, each in its place.
pub open spec fn bodies_after(
    entities: Map<u64, usize>,
    mapped: Seq<u32>,
    bodies: Seq<PhysicsBody>,
) -> Seq<PhysicsBody> {
    Seq::new(bodies.len(), |i: int| body_after(entities, mapped, bodies[i]))
}

fn read_vec3(words: &Vec<u32>, at: usize) -> (v: Vec3)
    requires
        at + 3 <= words.len(),
    ensures
        v == vec3_at(words@, at as int),
{
    Vec3 { x: words[at], y: words[at + 1], z: words[at + 2] }
}

/// Reads the simulated state of the body in header slot `slot`: the entry
/// of the slot gives the offset, and from there on stand translation,
/// velocity, hit normal and portal rotation. Nothing is returned when the
/// slot or the record lies outside the mapped words.
pub fn read_body(mapped: &Vec<u32>, slot: usize) -> (state: Option<(Vec3, Velocity)>)
    ensures
        state.is_some() <==> record_in_bounds(mapped@, slot as int),
        state matches Some((translation, velocity)) ==> {
            &&& translation == translation_at(mapped@, slot as int)
            &&& velocity == velocity_at(mapped@, slot as int)
        },
{
    let len = mapped.len();
    if slot >= len || slot + 1 >= len {
        return None;
    }
    let at = HeaderEntry::unpack(mapped[slot + 1]).offset as usize;
    if len < POINT_BODY_WORDS || at > len - POINT_BODY_WORDS {
        return None;
    }
    let translation = read_vec3(mapped, at);
    let velocity = Velocity {
        velocity: read_vec3(mapped, at + 3),
        hit_normal: read_vec3(mapped, at + 6),
        portal_rotation: Mat3 {
            x_axis: read_vec3(mapped, at + 9),
            y_axis: read_vec3(mapped, at + 12),
            z_axis: read_vec3(mapped, at + 15),
        },
    };
    Some((translation, velocity))
}

impl ExtractedPhysicsData {
    /// How many bytes of the device's copy of the buffer are to be mapped
    /// and waited for before the read-back, if it takes place at all: four
    /// for each word of the buffer.
    pub fn readback_bytes(&self, enable_compute: bool) -> (bytes: Option<u64>)
        ensures
            bytes.is_some() <==> reads_back(enable_compute, self.data@.len()) && 4
                * self.data@.len() <= u64::MAX,
            bytes matches Some(b) ==> b == 4 * self.data@.len(),
    {
        let words = self.data.len() as u64;
        if !enable_compute || words <= 1 || words > u64::MAX / 4 {
            return None;
        }
        Some(words * 4)
    }
}

/// Brings the bodies of the host up to date from the mapped words of the
/// buffer that was extracted a frame ago. Nothing happens while the device
/// does not compute or that buffer held no body. Otherwise every body whose
/// entity got a slot then takes the translation, velocity, hit normal and
/// portal rotation of that slot; a body whose entity got none is left as it
/// is. Refused, with all bodies untouched, when a record that is asked for
/// lies outside the mapped words.
pub fn insert_physics_data(
    enable_compute: bool,
    extracted: &ExtractedPhysicsData,
    mapped: &Vec<u32>,
    bodies: &mut Vec<PhysicsBody>,
) -> (result: Result<(), ReadbackError>)
    ensures
        !reads_back(enable_compute, extracted.data@.len()) ==> result.is_ok() && final(bodies)@
            == old(bodies)@,
        reads_back(enable_compute, extracted.data@.len()) ==> {
            &&& result.is_ok() <==> forall|i: int|
                0 <= i < old(bodies)@.len() ==> body_readable(
                    extracted.entities@,
                    mapped@,
                    #[trigger] old(bodies)@[i],
                )
            &&& result.is_ok() ==> final(bodies)@ == bodies_after(
                extracted.entities@,
                mapped@,
                old(bodies)@,
            )
            &&& result.is_err() ==> final(bodies)@ == old(bodies)@
        },
        final(bodies)@.len() == old(bodies)@.len(),
        forall|i: int|
            0 <= i < old(bodies)@.len() ==> (#[trigger] final(bodies)@[i]).entity == old(
                bodies,
            )@[i].entity,
{
    if !enable_compute {
        return Ok(());
    }
    if extracted.data.len() <= 1 {
        return Ok(());
    }
    let count = bodies.len();
    let mut updated: Vec<PhysicsBody> = Vec::new();
    let mut i: usize = 0;
    while i < count
        invariant
            i <= count,
            count == bodies@.len(),
            bodies@ == old(bodies)@,
            reads_back(enable_compute, extracted.data@.len()),
            updated@.len() == i,
            forall|k: int|
                0 <= k < i ==> body_readable(extracted.entities@, mapped@, #[trigger] bodies@[k]),
            forall|k: int|
                0 <= k < i ==> #[trigger] updated@[k] == body_after(
                    extracted.entities@,
                    mapped@,
                    bodies@[k],
                ),
        decreases count - i,
    {
        let body = bodies[i];
        match extracted.entities.get(&body.entity) {
            Some(slot) => {
                match read_body(mapped, *slot) {
                    Some((translation, velocity)) => {
                        updated.push(
                            PhysicsBody {
                                entity: body.entity,
                                translation,
                                velocity,
                                collider: body.collider,
                            },
                        );
                    },
                    None => {
                        assert(!body_readable(extracted.entities@, mapped@, bodies@[i as int]));
                        return Err(ReadbackError);
                    },
                }
            },
            None => {
                updated.push(body);
            },
        }
        i += 1;
    }
    assert(updated@ =~= bodies_after(extracted.entities@, mapped@, bodies@));
    *bodies = updated;
    Ok(())
}

/// The slots that an extraction records: exactly the entities of the bodies
/// got one, the slot of an entity is a place where a body of that entity
/// stands, and no body of that entity stands behind it.
pub proof fn lemma_index_map(bodies: Seq<PhysicsBody>)
    requires
        bodies.len() <= usize::MAX,
    ensures
        forall|e: u64| #[trigger]
            index_map(bodies).contains_key(e) ==> 0 <= index_map(bodies)[e] < bodies.len()
                && bodies[index_map(bodies)[e] as int].entity == e,
        forall|i: int|
            0 <= i < bodies.len() ==> index_map(bodies).contains_key(
                (#[trigger] bodies[i]).entity,
            ) && i <= index_map(bodies)[bodies[i].entity],
    decreases bodies.len(),
{
    if bodies.len() > 0 {
        let front = bodies.drop_last();
        lemma_index_map(front);
        assert forall|e: u64| #[trigger]
            index_map(bodies).contains_key(e) implies 0 <= index_map(bodies)[e] < bodies.len()
            && bodies[index_map(bodies)[e] as int].entity == e by {
            if e != bodies.last().entity {
                assert(index_map(front).contains_key(e));
                assert(front[index_map(front)[e] as int] == bodies[index_map(front)[e] as int]);
            }
        }
        assert forall|i: int| 0 <= i < bodies.len() implies index_map(bodies).contains_key(
            (#[trigger] bodies[i]).entity,
        ) && i <= index_map(bodies)[bodies[i].entity] by {
            if i < front.len() {
                assert(front[i] == bodies[i]);
            }
        }
    }
}

/// Where no two bodies belong to one entity, each entity's slot is the place
/// of its body.
pub proof fn lemma_index_map_distinct(bodies: Seq<PhysicsBody>, i: int)
    requires
        bodies.len() <= usize::MAX,
        0 <= i < bodies.len(),
        forall|j: int, k: int|
            0 <= j < k < bodies.len() ==> (#[trigger] bodies[j]).entity != (
            #[trigger] bodies[k]).entity,
    ensures
        index_map(bodies).contains_key(bodies[i].entity),
        index_map(bodies)[bodies[i].entity] == i,
{
    lemma_index_map(bodies);
    let slot = index_map(bodies)[bodies[i].entity] as int;
    assert(bodies[slot].entity == bodies[i].entity);
}

/// A frame of delay: the read-back writes to the bodies that are handed to
/// it and to no other. An entity that got a slot at extraction and has no
/// body any more when the buffer is read back is not among the bodies
/// afterwards either, and every body that is there still belongs to its
/// entity; one whose entity got no slot is exactly as before.
pub proof fn lemma_despawned_entity_receives_no_write(
    entities: Map<u64, usize>,
    mapped: Seq<u32>,
    present: Seq<PhysicsBody>,
    entity: u64,
)
    requires
        entities.contains_key(entity),
        forall|i: int| 0 <= i < present.len() ==> (#[trigger] present[i]).entity != entity,
    ensures
        bodies_after(entities, mapped, present).len() == present.len(),
        forall|i: int|
            0 <= i < present.len() ==> (#[trigger] bodies_after(
                entities,
                mapped,
                present,
            )[i]).entity == present[i].entity && bodies_after(entities, mapped, present)[i].entity
                != entity,
        forall|i: int|
            0 <= i < present.len() && !entities.contains_key(present[i].entity)
                ==> #[trigger] bodies_after(entities, mapped, present)[i] == present[i],
{
    assert forall|i: int| 0 <= i < present.len() implies (#[trigger] bodies_after(
        entities,
        mapped,
        present,
    )[i]).entity == present[i].entity && bodies_after(entities, mapped, present)[i].entity
        != entity by {
        assert(present[i].entity != entity);
    }
}

/// The leading words of a body, one by one.
pub proof fn lemma_point_words(body: PhysicsBody)
    ensures
        body.point_words().len() == 18,
        body.object().payload.len() >= 18,
        forall|k: int| 0 <= k < 18 ==> body.object().payload[k] == body.point_words()[k],
        vec3_at(body.point_words(), 0) == body.translation,
        vec3_at(body.point_words(), 3) == body.velocity.velocity,
        vec3_at(body.point_words(), 6) == Vec3::zero(),
        mat3_at(body.point_words(), 9) == Mat3::identity(),
{
    let a = body.translation.words();
    let b = body.velocity.velocity.words();
    let c = Vec3::zero().words();
    let d = Mat3::identity().words();
    let ab = a + b;
    let abc = ab + c;
    let head = abc + d;
    assert(head == body.point_words());
    assert(d.len() == 9);
    assert(head.len() == 18);
    assert forall|k: int| 0 <= k < 3 implies head[k] == a[k] by {
        assert(abc[k] == ab[k]);
    }
    assert forall|k: int| 0 <= k < 3 implies head[3 + k] == b[k] by {
        assert(abc[3 + k] == ab[3 + k]);
    }
    assert forall|k: int| 0 <= k < 3 implies head[6 + k] == c[k] by {
        assert(abc[6 + k] == c[k]);
    }
    assert forall|k: int| 0 <= k < 9 implies head[9 + k] == d[k] by {}
    assert(head[0] == a[0] && head[1] == a[1] && head[2] == a[2]);
    assert(head[3] == b[0] && head[4] == b[1] && head[5] == b[2]) by {
        assert(head[3 + 0int] == b[0] && head[3 + 1int] == b[1] && head[3 + 2int] == b[2]);
    }
    assert(head[6] == c[0] && head[7] == c[1] && head[8] == c[2]) by {
        assert(head[6 + 0int] == c[0] && head[6 + 1int] == c[1] && head[6 + 2int] == c[2]);
    }
    assert(head[9] == d[0] && head[10] == d[1] && head[11] == d[2] && head[12] == d[3]
        && head[13] == d[4] && head[14] == d[5] && head[15] == d[6] && head[16] == d[7]
        && head[17] == d[8]) by {
        assert(head[9 + 0int] == d[0] && head[9 + 1int] == d[1] && head[9 + 2int] == d[2]);
        assert(head[9 + 3int] == d[3] && head[9 + 4int] == d[4] && head[9 + 5int] == d[5]);
        assert(head[9 + 6int] == d[6] && head[9 + 7int] == d[7] && head[9 + 8int] == d[8]);
    }
    let x = Mat3::identity().x_axis.words();
    let y = Mat3::identity().y_axis.words();
    let z = Mat3::identity().z_axis.words();
    let xy = x + y;
    assert(d == xy + z);
    assert(d[0] == x[0] && d[1] == x[1] && d[2] == x[2]) by {
        assert(xy[0] == x[0] && xy[1] == x[1] && xy[2] == x[2]);
    }
    assert(d[3] == y[0] && d[4] == y[1] && d[5] == y[2]) by {
        assert(xy[3] == y[0] && xy[4] == y[1] && xy[5] == y[2]);
    }
    assert(d[6] == z[0] && d[7] == z[1] && d[8] == z[2]);
}

/// What the host wrote is what it reads while the device has not touched the
/// buffer: in the buffer extracted from `bodies`, the record in slot `i`
/// can be read and holds the translation and velocity of body `i`, a zero
/// hit normal and the identity as portal rotation.
pub proof fn lemma_read_back_extracted(bodies: Seq<PhysicsBody>, i: int)
    requires
        encodable(body_objects(bodies)),
        0 <= i < bodies.len(),
    ensures
        record_in_bounds(contents_of(body_objects(bodies)).words(), i),
        translation_at(contents_of(body_objects(bodies)).words(), i) == bodies[i].translation,
        velocity_at(contents_of(body_objects(bodies)).words(), i) == (Velocity {
            velocity: bodies[i].velocity.velocity,
            hit_normal: Vec3::zero(),
            portal_rotation: Mat3::identity(),
        }),
{
    let objects = body_objects(bodies);
    let words = contents_of(objects).words();
    let at = entry_at(words, i).offset as int;
    let head = bodies[i].point_words();
    lemma_encoded_object(objects, i);
    lemma_point_words(bodies[i]);
    assert(objects[i] == bodies[i].object());
    assert forall|k: int| 0 <= k < 18 implies words[at + k] == head[k] by {
        assert(words[at + k] == objects[i].payload[k]);
    }
    lemma_same_words(words, at, head);
}

/// Eighteen words that stand in a buffer from `at` on read as the same
/// vectors and matrix there as on their own.
proof fn lemma_same_words(words: Seq<u32>, at: int, head: Seq<u32>)
    requires
        head.len() == 18,
        forall|k: int| 0 <= k < 18 ==> words[at + k] == head[k],
    ensures
        vec3_at(words, at) == vec3_at(head, 0),
        vec3_at(words, at + 3) == vec3_at(head, 3),
        vec3_at(words, at + 6) == vec3_at(head, 6),
        mat3_at(words, at + 9) == mat3_at(head, 9),
{
    assert(words[at + 0] == head[0]);
    assert(words[at + 1] == head[1]);
    assert(words[at + 2] == head[2]);
    assert(words[at + 3] == head[3]);
    assert(words[at + 4] == head[4]);
    assert(words[at + 5] == head[5]);
    assert(words[at + 6] == head[6]);
    assert(words[at + 7] == head[7]);
    assert(words[at + 8] == head[8]);
    assert(words[at + 9] == head[9]);
    assert(words[at + 10] == head[10]);
    assert(words[at + 11] == head[11]);
    assert(words[at + 12] == head[12]);
    assert(words[at + 13] == head[13]);
    assert(words[at + 14] == head[14]);
    assert(words[at + 15] == head[15]);
    assert(words[at + 16] == head[16]);
    assert(words[at + 17] == head[17]);
}

} // verus!
