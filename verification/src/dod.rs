use vstd::prelude::*;

verus! {

/// Number of bytes of one simulated component (four 32-bit lanes).
pub const LANE_BYTES: usize = 16;

/// A packed byte array holding one component for every entity of a chunk.
pub struct DODArray {
    pub bytes: Vec<u8>,
}

/// Struct-of-arrays storage of the positions and velocities of a chunk.
pub struct DODStorage {
    pub pos: DODArray,
    pub vel: DODArray,
}

/// What a storage holds: its position bytes and its velocity bytes.
pub struct StorageView {
    pub pos: Seq<u8>,
    pub vel: Seq<u8>,
}

impl View for DODStorage {
    type V = StorageView;

    open spec fn view(&self) -> StorageView {
        StorageView { pos: self.pos.bytes@, vel: self.vel.bytes@ }
    }
}

/// The zeroed storage of a chunk of `entity_count` entities.
pub open spec fn zeroed_storage(entity_count: nat) -> StorageView {
    StorageView {
        pos: zero_bytes(entity_count * (LANE_BYTES as nat)),
        vel: zero_bytes(entity_count * (LANE_BYTES as nat)),
    }
}

/// The sequence of `n` zero bytes.
pub open spec fn zero_bytes(n: nat) -> Seq<u8> {
    Seq::new(n, |i: int| 0u8)
}

impl DODStorage {
    /// Number of whole lanes in the position array.
    pub open spec fn spec_lane_count(&self) -> nat {
        (self.pos.bytes@.len() / (LANE_BYTES as nat)) as nat
    }

    /// Number of whole lanes that a movement step walks over.
    pub fn lane_count(&self) -> (n: usize)
        ensures
            n == self.spec_lane_count(),
    {
        self.pos.bytes.len() / LANE_BYTES
    }

    /// Whether the velocity array covers every lane of the position array,
    /// so that a movement step reads no byte outside it.
    pub fn velocity_covers_positions(&self) -> (b: bool)
        ensures
            b <==> self.spec_lane_count() * LANE_BYTES <= self.vel.bytes@.len(),
    {
        self.lane_count() <= self.vel.bytes.len() / LANE_BYTES
    }
}

/// Builds zeroed struct-of-arrays storage for a chunk holding
/// `entity_count` entities: one lane of position bytes and one lane of
/// velocity bytes per entity.
pub fn convert_chunk_to_dod(entity_count: usize) -> (s: DODStorage)
    requires
        entity_count * LANE_BYTES <= usize::MAX,
    ensures
        s@ == zeroed_storage(entity_count as nat),
        s.spec_lane_count() == entity_count,
{
    let n: usize = entity_count * LANE_BYTES;
    let pos_bytes = vec![0u8; n];
    let vel_bytes = vec![0u8; n];
    let s = DODStorage { pos: DODArray { bytes: pos_bytes }, vel: DODArray { bytes: vel_bytes } };
    assert(s.pos.bytes@ =~= zero_bytes((entity_count * LANE_BYTES) as nat));
    assert(s.vel.bytes@ =~= zero_bytes((entity_count * LANE_BYTES) as nat));
    assert((entity_count * LANE_BYTES) as nat / (LANE_BYTES as nat) == entity_count) by (nonlinear_arith);
    s
}

} // verus!
