//! The scene of one frame for the device: particles, portals, edge volumes
//! and solid boxes in one tagged buffer, and the table of portal pairs.

use crate::components::{Box, Edges, Particle, Portal};
use crate::math::{IVec3, IVec4, Vec3, Vec4, ZERO_BITS};
use crate::objects::{
    contents_of, encodable, lemma_all_written, lemma_contents_step, lemma_no_room, Object,
};
use crate::type_buffer::{CapacityError, TypeBuffer, MAX_DATA_WORDS};
use vstd::prelude::*;

verus! {

/// Voxels along one unit of world length.
pub const VOXELS_PER_METER: u32 = 4;

/// Tag of a particle in the animation buffer.
pub const TAG_PARTICLE: u8 = 0;

/// Tag of a portal in the animation buffer.
pub const TAG_PORTAL: u8 = 1;

/// Tag of an edge volume in the animation buffer.
pub const TAG_EDGES: u8 = 2;

/// Tag of a solid box in the animation buffer.
pub const TAG_BOX: u8 = 3;

/// Number of portal pairs that the table takes.
pub const MAX_PORTAL_PAIRS: usize = 32;

/// The grid coordinate of a world position that was already scaled by
/// `VOXELS_PER_METER` and rounded down: moved by half the grid's size, so
/// that the world's origin falls on the grid's midpoint.
pub open spec fn voxel_of(scaled: IVec3, voxel_world_size: u32) -> (int, int, int) {
    let half = (voxel_world_size / 2) as int;
    (scaled.x + half, scaled.y + half, scaled.z + half)
}

/// Whether the grid coordinate of `scaled` can be held in 32 bits.
pub open spec fn voxel_in_range(scaled: IVec3, voxel_world_size: u32) -> bool {
    let (x, y, z) = voxel_of(scaled, voxel_world_size);
    x <= i32::MAX && y <= i32::MAX && z <= i32::MAX
}

/// Moves a scaled and rounded world position onto the grid, or returns
/// nothing when a coordinate would leave 32 bits.
pub fn world_to_voxel(scaled: IVec3, voxel_world_size: u32) -> (voxel: Option<IVec3>)
    ensures
        voxel.is_some() <==> voxel_in_range(scaled, voxel_world_size),
        voxel matches Some(v) ==> (v.x as int, v.y as int, v.z as int) == voxel_of(
            scaled,
            voxel_world_size,
        ),
{
    let half: i32 = (voxel_world_size / 2) as i32;
    if scaled.x > i32::MAX - half || scaled.y > i32::MAX - half || scaled.z > i32::MAX - half {
        return None;
    }
    Some(IVec3 { x: scaled.x + half, y: scaled.y + half, z: scaled.z + half })
}

/// A particle and where it stands on the grid.
#[derive(Clone, Copy, Debug, PartialEq, Eq, Structural)]
pub struct PlacedParticle {
    pub position: IVec3,
    pub particle: Particle,
}

/// A portal, where it stands on the grid, and the point of its front face in
/// render space, as single-precision bit patterns.
#[derive(Clone, Copy, Debug, PartialEq, Eq, Structural)]
pub struct PlacedPortal {
    pub position: IVec3,
    pub anchor: Vec3,
    pub portal: Portal,
}

/// An edge volume and where it stands on the grid.
#[derive(Clone, Copy, Debug, PartialEq, Eq, Structural)]
pub struct PlacedEdges {
    pub position: IVec3,
    pub edges: Edges,
}

/// A solid box and where it stands on the grid.
#[derive(Clone, Copy, Debug, PartialEq, Eq, Structural)]
pub struct PlacedBox {
    pub position: IVec3,
    pub solid: Box,
}

impl PlacedParticle {
    /// Position, then material: four words under the particle tag.
    pub open spec fn object(self) -> Object {
        Object {
            tag: TAG_PARTICLE,
            payload: self.position.words() + seq![self.particle.material as u32],
        }
    }
}

impl PlacedPortal {
    /// Position, half extent, then the portal's place in the traversal:
    /// seven words under the portal tag.
    pub open spec fn object(self, index: int) -> Object {
        Object {
            tag: TAG_PORTAL,
            payload: self.position.words() + self.portal.half_size.words() + seq![index as u32],
        }
    }
}

impl PlacedEdges {
    /// Position, material, then half extent: seven words under the edges tag.
    pub open spec fn object(self) -> Object {
        Object {
            tag: TAG_EDGES,
            payload: self.position.words() + seq![self.edges.material as u32]
                + self.edges.half_size.words(),
        }
    }
}

impl PlacedBox {
    /// Position, material, then half extent: seven words under the box tag.
    pub open spec fn object(self) -> Object {
        Object {
            tag: TAG_BOX,
            payload: self.position.words() + seq![self.solid.material as u32]
                + self.solid.half_size.words(),
        }
    }
}

/// The objects of a scene in the order in which they are written: all
/// particles, then all portals, then all edge volumes, then all boxes.
pub open spec fn scene_objects(
    particles: Seq<PlacedParticle>,
    portals: Seq<PlacedPortal>,
    edges: Seq<PlacedEdges>,
    boxes: Seq<PlacedBox>,
) -> Seq<Object> {
    Seq::new(particles.len(), |i: int| particles[i].object()) + Seq::new(
        portals.len(),
        |i: int| portals[i].object(i),
    ) + Seq::new(edges.len(), |i: int| edges[i].object()) + Seq::new(
        boxes.len(),
        |i: int| boxes[i].object(),
    )
}

/// Which object stands at which place of a scene.
pub proof fn lemma_scene_objects(
    particles: Seq<PlacedParticle>,
    portals: Seq<PlacedPortal>,
    edges: Seq<PlacedEdges>,
    boxes: Seq<PlacedBox>,
)
    ensures
        scene_objects(particles, portals, edges, boxes).len() == particles.len() + portals.len()
            + edges.len() + boxes.len(),
        forall|i: int|
            0 <= i < particles.len() ==> scene_objects(particles, portals, edges, boxes)[i] == (
            #[trigger] particles[i]).object(),
        forall|i: int|
            0 <= i < portals.len() ==> scene_objects(
                particles,
                portals,
                edges,
                boxes,
            )[particles.len() + i] == (#[trigger] portals[i]).object(i),
        forall|i: int|
            0 <= i < edges.len() ==> scene_objects(
                particles,
                portals,
                edges,
                boxes,
            )[particles.len() + portals.len() + i] == (#[trigger] edges[i]).object(),
        forall|i: int|
            0 <= i < boxes.len() ==> scene_objects(
                particles,
                portals,
                edges,
                boxes,
            )[particles.len() + portals.len() + edges.len() + i] == (#[trigger] boxes[i]).object(),
{
}

/// Writes one particle, or nothing when there is no room for it.
fn write_particle(buffer: &mut TypeBuffer, placed: &PlacedParticle) -> (result: Result<
    (),
    CapacityError,
>)
    ensures
        placed.object().payload.len() == 4,
        result.is_ok() <==> old(buffer)@.takes(4),
        result.is_ok() ==> final(buffer)@ == old(buffer)@.with_payload(
            placed.object().tag,
            placed.object().payload,
        ),
        result.is_err() ==> final(buffer)@ == old(buffer)@,
{
    if !buffer.has_room(4) {
        return Err(CapacityError);
    }
    buffer.push_object(TAG_PARTICLE)?;
    buffer.push_ivec3(placed.position)?;
    buffer.push_u32(placed.particle.material as u32)?;
    assert(buffer@.data =~= old(buffer)@.data + placed.object().payload);
    Ok(())
}

/// Writes one portal, or nothing when there is no room for it.
fn write_portal(buffer: &mut TypeBuffer, placed: &PlacedPortal, index: u32) -> (result: Result<
    (),
    CapacityError,
>)
    ensures
        placed.object(index as int).payload.len() == 7,
        result.is_ok() <==> old(buffer)@.takes(7),
        result.is_ok() ==> final(buffer)@ == old(buffer)@.with_payload(
            placed.object(index as int).tag,
            placed.object(index as int).payload,
        ),
        result.is_err() ==> final(buffer)@ == old(buffer)@,
{
    if !buffer.has_room(7) {
        return Err(CapacityError);
    }
    buffer.push_object(TAG_PORTAL)?;
    buffer.push_ivec3(placed.position)?;
    buffer.push_ivec3(placed.portal.half_size)?;
    buffer.push_u32(index)?;
    assert(buffer@.data =~= old(buffer)@.data + placed.object(index as int).payload);
    Ok(())
}

/// Writes one edge volume, or nothing when there is no room for it.
fn write_edges(buffer: &mut TypeBuffer, placed: &PlacedEdges) -> (result: Result<
    (),
    CapacityError,
>)
    ensures
        placed.object().payload.len() == 7,
        result.is_ok() <==> old(buffer)@.takes(7),
        result.is_ok() ==> final(buffer)@ == old(buffer)@.with_payload(
            placed.object().tag,
            placed.object().payload,
        ),
        result.is_err() ==> final(buffer)@ == old(buffer)@,
{
    if !buffer.has_room(7) {
        return Err(CapacityError);
    }
    buffer.push_object(TAG_EDGES)?;
    buffer.push_ivec3(placed.position)?;
    buffer.push_u32(placed.edges.material as u32)?;
    buffer.push_ivec3(placed.edges.half_size)?;
    assert(buffer@.data =~= old(buffer)@.data + placed.object().payload);
    Ok(())
}

/// Writes one solid box, or nothing when there is no room for it.
fn write_box(buffer: &mut TypeBuffer, placed: &PlacedBox) -> (result: Result<(), CapacityError>)
    ensures
        placed.object().payload.len() == 7,
        result.is_ok() <==> old(buffer)@.takes(7),
        result.is_ok() ==> final(buffer)@ == old(buffer)@.with_payload(
            placed.object().tag,
            placed.object().payload,
        ),
        result.is_err() ==> final(buffer)@ == old(buffer)@,
{
    if !buffer.has_room(7) {
        return Err(CapacityError);
    }
    buffer.push_object(TAG_BOX)?;
    buffer.push_ivec3(placed.position)?;
    buffer.push_u32(placed.solid.material as u32)?;
    buffer.push_ivec3(placed.solid.half_size)?;
    assert(buffer@.data =~= old(buffer)@.data + placed.object().payload);
    Ok(())
}

/// One direction through a pair of portals: the portal that is entered, by
/// its anchor, normal and half extent, and the anchor and normal of the one
/// that is left. The fourth lane of each group is padding and holds zero.
#[derive(Clone, Copy, Debug, PartialEq, Eq, Structural)]
pub struct ExtractedPortal {
    pub pos: Vec4,
    pub other_pos: Vec4,
    pub normal: Vec4,
    pub other_normal: Vec4,
    pub half_size: IVec4,
}

/// Two portals that lead into each other: `first` is the way in through the
/// earlier one, `second` the way in through the later one.
#[derive(Clone, Copy, Debug, PartialEq, Eq, Structural)]
pub struct PortalPair {
    pub first: ExtractedPortal,
    pub second: ExtractedPortal,
}

/// The way in through `near` and out through `far`.
pub open spec fn direction(near: PlacedPortal, far: PlacedPortal) -> ExtractedPortal {
    ExtractedPortal {
        pos: near.anchor.extended(ZERO_BITS),
        other_pos: far.anchor.extended(ZERO_BITS),
        normal: near.portal.normal.extended(ZERO_BITS),
        other_normal: far.portal.normal.extended(ZERO_BITS),
        half_size: near.portal.half_size.extended(0),
    }
}

/// Number of pairs that `portals` portals make: one for every two, up to the
/// table's capacity. An odd last portal stays alone.
pub open spec fn pair_count(portals: nat) -> nat {
    if portals / 2 <= MAX_PORTAL_PAIRS {
        portals / 2
    } else {
        MAX_PORTAL_PAIRS as nat
    }
}

/// Pair `index`: portal `2 * index` with portal `2 * index + 1`.
pub open spec fn pair_at(portals: Seq<PlacedPortal>, index: int) -> PortalPair {
    PortalPair {
        first: direction(portals[2 * index], portals[2 * index + 1]),
        second: direction(portals[2 * index + 1], portals[2 * index]),
    }
}

/// The table of portal pairs of a traversal.
pub open spec fn pair_table(portals: Seq<PlacedPortal>) -> Seq<PortalPair> {
    Seq::new(pair_count(portals.len()), |i: int| pair_at(portals, i))
}

/// One direction through two portals.
fn extract_portal(near: &PlacedPortal, far: &PlacedPortal) -> (side: ExtractedPortal)
    ensures
        side == direction(*near, *far),
{
    ExtractedPortal {
        pos: near.anchor.extend(ZERO_BITS),
        other_pos: far.anchor.extend(ZERO_BITS),
        normal: near.portal.normal.extend(ZERO_BITS),
        other_normal: far.portal.normal.extend(ZERO_BITS),
        half_size: near.portal.half_size.extend(0),
    }
}

/// Pairs the portals in the order in which they come: every second one
/// closes a pair with the one before it. Pairs beyond the table's capacity
/// are left out, and so is an odd last portal.
pub fn pair_portals(portals: &Vec<PlacedPortal>) -> (table: Vec<PortalPair>)
    ensures
        table@ == pair_table(portals@),
        table@.len() == pair_count(portals@.len()),
        forall|i: int|
            0 <= i < table@.len() ==> {
                &&& (#[trigger] table@[i]).first.pos == portals@[2 * i].anchor.extended(ZERO_BITS)
                &&& table@[i].first.other_pos == portals@[2 * i + 1].anchor.extended(ZERO_BITS)
                &&& table@[i].second.pos == portals@[2 * i + 1].anchor.extended(ZERO_BITS)
                &&& table@[i].second.other_pos == portals@[2 * i].anchor.extended(ZERO_BITS)
            },
{
    let mut table: Vec<PortalPair> = Vec::new();
    let mut i: usize = 0;
    while i < portals.len()
        invariant
            i <= portals@.len(),
            table@ == pair_table(portals@.take(i as int)),
        decreases portals@.len() - i,
    {
        if i % 2 == 1 && table.len() < MAX_PORTAL_PAIRS {
            let first = &portals[i - 1];
            let second = &portals[i];
            table.push(
                PortalPair {
                    first: extract_portal(first, second),
                    second: extract_portal(second, first),
                },
            );
        }
        proof {
            let before = portals@.take(i as int);
            let after = portals@.take(i + 1);
            assert forall|k: int| 0 <= k < pair_count(before.len()) implies pair_at(before, k)
                == pair_at(after, k) by {
                assert(before[2 * k] == after[2 * k]);
                assert(before[2 * k + 1] == after[2 * k + 1]);
            }
            assert(table@ =~= pair_table(after));
        }
        i += 1;
    }
    assert(portals@.take(i as int) =~= portals@);
    table
}

/// The portal pairs of a traversal, stated pair by pair: there is one pair
/// for every two portals, at most as many as the table takes, and pair `i`
/// joins portal `2 * i` to portal `2 * i + 1`, each direction holding the
/// other portal's anchor and normal as its far side.
pub proof fn lemma_pair_table(portals: Seq<PlacedPortal>, i: int)
    requires
        0 <= i < pair_count(portals.len()),
    ensures
        pair_table(portals).len() == pair_count(portals.len()),
        pair_count(portals.len()) <= MAX_PORTAL_PAIRS,
        2 * pair_count(portals.len()) <= portals.len(),
        portals.len() % 2 == 0 && portals.len() / 2 <= MAX_PORTAL_PAIRS ==> 2 * pair_table(
            portals,
        ).len() == portals.len(),
        2 * i + 1 < portals.len(),
        pair_table(portals)[i].first.pos == portals[2 * i].anchor.extended(ZERO_BITS),
        pair_table(portals)[i].first.other_pos == portals[2 * i + 1].anchor.extended(ZERO_BITS),
        pair_table(portals)[i].first.normal == portals[2 * i].portal.normal.extended(ZERO_BITS),
        pair_table(portals)[i].first.other_normal == portals[2 * i + 1].portal.normal.extended(
            ZERO_BITS,
        ),
        pair_table(portals)[i].first.half_size == portals[2 * i].portal.half_size.extended(0),
        pair_table(portals)[i].second == direction(portals[2 * i + 1], portals[2 * i]),
{
}

/// What one frame hands to the device: the finished animation buffer and
/// the table of portal pairs.
#[derive(Clone, Debug, PartialEq, Eq)]
pub struct ExtractedAnimationData {
    pub data: Vec<u32>,
    pub portals: Vec<PortalPair>,
}

/// Encodes the scene of one frame: every particle, portal, edge volume and
/// box as one object of the animation buffer, kind after kind and within a
/// kind in the order given, and the portals paired in that same order.
/// Refused when the objects do not fit in one buffer.
pub fn extract_animation_data(
    particles: &Vec<PlacedParticle>,
    portals: &Vec<PlacedPortal>,
    edges: &Vec<PlacedEdges>,
    boxes: &Vec<PlacedBox>,
) -> (result: Result<ExtractedAnimationData, CapacityError>)
    ensures
        result.is_ok() <==> encodable(scene_objects(particles@, portals@, edges@, boxes@)),
        result matches Ok(extracted) ==> {
            &&& extracted.data@ == contents_of(
                scene_objects(particles@, portals@, edges@, boxes@),
            ).words()
            &&& extracted.portals@ == pair_table(portals@)
        },
{
    let ghost all = scene_objects(particles@, portals@, edges@, boxes@);
    let ghost np = particles@.len() as int;
    let ghost nq = portals@.len() as int;
    let ghost ne = edges@.len() as int;
    proof {
        lemma_scene_objects(particles@, portals@, edges@, boxes@);
        assert(all.take(0).len() == 0);
    }
    let mut buffer = TypeBuffer::new();

    let mut i: usize = 0;
    while i < particles.len()
        invariant
            i <= particles@.len(),
            all == scene_objects(particles@, portals@, edges@, boxes@),
            all.len() == particles@.len() + portals@.len() + edges@.len() + boxes@.len(),
            forall|k: int|
                0 <= k < particles@.len() ==> all[k] == (#[trigger] particles@[k]).object(),
            buffer@ == contents_of(all.take(i as int)),
            buffer@.data.len() <= MAX_DATA_WORDS,
        decreases particles@.len() - i,
    {
        proof {
            assert(all[i as int] == particles@[i as int].object());
            lemma_contents_step(all, i as int);
        }
        if write_particle(&mut buffer, &particles[i]).is_err() {
            proof {
                lemma_no_room(all, i as int);
            }
            return Err(CapacityError);
        }
        i += 1;
    }

    let mut i: usize = 0;
    while i < portals.len()
        invariant
            i <= portals@.len(),
            np == particles@.len(),
            all == scene_objects(particles@, portals@, edges@, boxes@),
            all.len() == particles@.len() + portals@.len() + edges@.len() + boxes@.len(),
            forall|k: int|
                0 <= k < portals@.len() ==> all[np + k] == (#[trigger] portals@[k]).object(k),
            buffer@ == contents_of(all.take(np + i)),
            buffer@.data.len() <= MAX_DATA_WORDS,
            buffer@.data.len() >= 7 * i,
        decreases portals@.len() - i,
    {
        proof {
            assert(all[np + i] == portals@[i as int].object(i as int));
            lemma_contents_step(all, np + i);
        }
        let index: u32 = i as u32;
        if write_portal(&mut buffer, &portals[i], index).is_err() {
            proof {
                lemma_no_room(all, np + i);
            }
            return Err(CapacityError);
        }
        i += 1;
    }

    let mut i: usize = 0;
    while i < edges.len()
        invariant
            i <= edges@.len(),
            np == particles@.len(),
            nq == portals@.len(),
            all == scene_objects(particles@, portals@, edges@, boxes@),
            all.len() == particles@.len() + portals@.len() + edges@.len() + boxes@.len(),
            forall|k: int|
                0 <= k < edges@.len() ==> all[np + nq + k] == (#[trigger] edges@[k]).object(),
            buffer@ == contents_of(all.take(np + nq + i)),
            buffer@.data.len() <= MAX_DATA_WORDS,
        decreases edges@.len() - i,
    {
        proof {
            assert(all[np + nq + i] == edges@[i as int].object());
            lemma_contents_step(all, np + nq + i);
        }
        if write_edges(&mut buffer, &edges[i]).is_err() {
            proof {
                lemma_no_room(all, np + nq + i);
            }
            return Err(CapacityError);
        }
        i += 1;
    }

    let mut i: usize = 0;
    while i < boxes.len()
        invariant
            i <= boxes@.len(),
            np == particles@.len(),
            nq == portals@.len(),
            ne == edges@.len(),
            all == scene_objects(particles@, portals@, edges@, boxes@),
            all.len() == particles@.len() + portals@.len() + edges@.len() + boxes@.len(),
            forall|k: int|
                0 <= k < boxes@.len() ==> all[np + nq + ne + k] == (#[trigger] boxes@[k]).object(),
            buffer@ == contents_of(all.take(np + nq + ne + i)),
            buffer@.data.len() <= MAX_DATA_WORDS,
        decreases boxes@.len() - i,
    {
        proof {
            assert(all[np + nq + ne + i] == boxes@[i as int].object());
            lemma_contents_step(all, np + nq + ne + i);
        }
        if write_box(&mut buffer, &boxes[i]).is_err() {
            proof {
                lemma_no_room(all, np + nq + ne + i);
            }
            return Err(CapacityError);
        }
        i += 1;
    }

    proof {
        assert(all.take(np + nq + ne + i) =~= all);
        lemma_all_written(all);
    }
    let pairs = pair_portals(portals);
    match buffer.finish() {
        Ok(data) => Ok(ExtractedAnimationData { data, portals: pairs }),
        Err(e) => Err(e),
    }
}

} // verus!
