//! Capacity limits, geometry index checks, render-target extents and draw batching of the
//! native indexed mesh pipeline.
use std::ops::Range;
use vstd::prelude::*;

verus! {

pub const MAX_MESH_VERTICES: usize = 1_000_000;
pub const MAX_MESH_INDICES: usize = 3_000_000;
pub const MAX_FRAME_DRAWS: usize = 4096;
pub const MAX_RESIDENT_MESHES: usize = 256;
pub const MAX_GEOMETRY_BYTES: usize = 67_108_864;
pub const MAX_TARGET_PIXELS: u64 = 8_388_608;

/// CPU validation, capacity or GPU/readback failure; never a successful draw count.
#[derive(Clone, Debug, PartialEq, Eq)]
pub enum MeshError {
    EmptyGeometry,
    InvalidIndexCount,
    IndexOutOfBounds,
    InvalidVertex,
    InvalidNormal,
    InvalidNormalTransform,
    InvalidMatrix,
    InvalidColor,
    InvalidLight,
    MissingCamera,
    MissingExtraction,
    OutOfMemory,
    Capacity,
    InvalidExtent,
    ReadbackUnavailable,
    Gpu(String),
}

/// An error reported by one GPU error scope: an allocation failure, or another error with its
/// message.
#[derive(Clone, Debug, PartialEq, Eq)]
pub enum ScopeError {
    OutOfMemory,
    Other(String),
}

/// The first error present in `errors`, in order.
pub open spec fn first_scope_error(errors: Seq<Option<ScopeError>>) -> Option<ScopeError>
    decreases errors.len(),
{
    if errors.len() == 0 {
        None
    } else {
        match errors[0] {
            Some(e) => Some(e),
            None => first_scope_error(errors.drop_first()),
        }
    }
}

/// Classifies popped error scopes, given in the order memory, validation, internal: the first
/// reported error decides, an allocation failure as `OutOfMemory` and any other by its message.
pub fn classify(errors: [Option<ScopeError>; 3]) -> (r: Result<(), MeshError>)
    ensures
        match first_scope_error(errors@) {
            None => r is Ok,
            Some(ScopeError::OutOfMemory) => r == Err::<(), MeshError>(MeshError::OutOfMemory),
            Some(ScopeError::Other(message)) => r matches Err(MeshError::Gpu(text)) && text@ == message@,
        },
{
    let mut i: usize = 0;
    proof {
        assert(errors@.subrange(0, 3) =~= errors@);
    }
    while i < 3
        invariant
            i <= 3,
            errors@.len() == 3,
            first_scope_error(errors@) == first_scope_error(errors@.subrange(i as int, 3)),
        decreases 3 - i,
    {
        proof {
            assert(errors@.subrange(i as int, 3).drop_first() =~= errors@.subrange(i as int + 1, 3));
        }
        match &errors[i] {
            Some(ScopeError::OutOfMemory) => return Err(MeshError::OutOfMemory),
            Some(ScopeError::Other(message)) => return Err(MeshError::Gpu(message.clone())),
            None => {},
        }
        i = i + 1;
    }
    Ok(())
}

/// Checks the number of draws submitted in one frame against `MAX_FRAME_DRAWS`.
pub fn check_frame_draws(count: usize) -> (r: Result<(), MeshError>)
    ensures
        count <= MAX_FRAME_DRAWS ==> r is Ok,
        count > MAX_FRAME_DRAWS ==> r == Err::<(), MeshError>(MeshError::Capacity),
{
    if count > MAX_FRAME_DRAWS {
        return Err(MeshError::Capacity);
    }
    Ok(())
}

/// Why indexed triangle-list geometry is rejected, if it is: emptiness, capacity, a partial
/// triangle, an invalid vertex (as the caller found), then an index past the last vertex.
pub open spec fn geometry_check(vertex_count: int, vertices_valid: bool, indices: Seq<u32>) -> Option<MeshError> {
    if vertex_count == 0 || indices.len() == 0 {
        Some(MeshError::EmptyGeometry)
    } else if vertex_count > MAX_MESH_VERTICES || indices.len() > MAX_MESH_INDICES {
        Some(MeshError::Capacity)
    } else if indices.len() % 3 != 0 {
        Some(MeshError::InvalidIndexCount)
    } else if !vertices_valid {
        Some(MeshError::InvalidVertex)
    } else if exists|i: int| 0 <= i < indices.len() && indices[i] >= vertex_count {
        Some(MeshError::IndexOutOfBounds)
    } else {
        None
    }
}

/// Accepted geometry names only existing vertices, in whole non-empty triangles within the
/// caps; an index past the last vertex anywhere is refused.
pub proof fn lemma_accepted_geometry(vertex_count: int, vertices_valid: bool, indices: Seq<u32>)
    requires
        vertex_count >= 0,
    ensures
        geometry_check(vertex_count, vertices_valid, indices) is None ==> {
            &&& 0 < vertex_count <= MAX_MESH_VERTICES
            &&& 0 < indices.len() <= MAX_MESH_INDICES
            &&& indices.len() % 3 == 0
            &&& vertices_valid
            &&& forall|i: int| 0 <= i < indices.len() ==> (#[trigger] indices[i] as int) < vertex_count
        },
        (exists|i: int| 0 <= i < indices.len() && indices[i] >= vertex_count) ==> geometry_check(
            vertex_count,
            vertices_valid,
            indices,
        ) is Some,
{
}

/// Checks triangle-list geometry of `vertex_count` vertices, whose own validity (finite
/// positions, colors in `[0, 1]`) the caller has established as `vertices_valid`.
pub fn check_geometry(vertex_count: usize, vertices_valid: bool, indices: &[u32]) -> (r: Result<(), MeshError>)
    ensures
        match geometry_check(vertex_count as int, vertices_valid, indices@) {
            Some(e) => r == Err::<(), MeshError>(e),
            None => r is Ok,
        },
        r is Ok ==> forall|i: int| 0 <= i < indices@.len() ==> (#[trigger] indices@[i] as int) < vertex_count,
        (exists|i: int| 0 <= i < indices@.len() && indices@[i] >= vertex_count) ==> r is Err,
{
    if vertex_count == 0 || indices.len() == 0 {
        return Err(MeshError::EmptyGeometry);
    }
    if vertex_count > MAX_MESH_VERTICES || indices.len() > MAX_MESH_INDICES {
        return Err(MeshError::Capacity);
    }
    if indices.len() % 3 != 0 {
        return Err(MeshError::InvalidIndexCount);
    }
    if !vertices_valid {
        return Err(MeshError::InvalidVertex);
    }
    let mut i: usize = 0;
    while i < indices.len()
        invariant
            i <= indices@.len(),
            geometry_check(vertex_count as int, vertices_valid, indices@) == (if exists|k: int|
                0 <= k < indices@.len() && indices@[k] >= vertex_count {
                Some(MeshError::IndexOutOfBounds)
            } else {
                None
            }),
            forall|k: int| 0 <= k < i ==> indices@[k] < vertex_count,
        decreases indices@.len() - i,
    {
        if indices[i] as usize >= vertex_count {
            assert(indices@[i as int] >= vertex_count);
            return Err(MeshError::IndexOutOfBounds);
        }
        i = i + 1;
    }
    Ok(())
}

/// Render-target extent check: both sides in `[1, device_limit]` and at most
/// `MAX_TARGET_PIXELS` pixels.
pub fn validate_extent(width: u32, height: u32, device_limit: u32) -> (r: Result<(), MeshError>)
    ensures
        r is Ok <==> (1 <= width <= device_limit && 1 <= height <= device_limit && width * height
            <= MAX_TARGET_PIXELS),
        r is Err ==> r == Err::<(), MeshError>(MeshError::InvalidExtent),
{
    let w = width as u64;
    let h = height as u64;
    if width == 0 || height == 0 || width > device_limit || height > device_limit {
        return Err(MeshError::InvalidExtent);
    }
    assert(w * h <= 0xffff_ffff * 0xffff_ffff) by (nonlinear_arith)
        requires
            w <= 0xffff_ffff,
            h <= 0xffff_ffff,
    ;
    if w * h > MAX_TARGET_PIXELS {
        return Err(MeshError::InvalidExtent);
    }
    Ok(())
}

/// Whether `batches` are the maximal runs of equal slots of `slots` from `start` on,
/// in order, each with its instance range.
pub open spec fn runs_from(slots: Seq<usize>, start: int, batches: Seq<(usize, Range<u32>)>) -> bool
    decreases slots.len() - start, batches.len(),
{
    if start >= slots.len() {
        batches.len() == 0
    } else if batches.len() == 0 {
        false
    } else {
        let (slot, range) = batches[0];
        let end = range.end as int;
        &&& slot == slots[start]
        &&& range.start == start
        &&& start < end <= slots.len()
        &&& forall|k: int| start <= k < end ==> slots[k] == slot
        &&& (end == slots.len() || slots[end] != slot)
        &&& runs_from(slots, end, batches.drop_first())
    }
}

/// Lemma: one maximal run `[start, end)` followed by a run list from `end` is a run list
/// from `start`.
proof fn lemma_runs_extend(
    slots: Seq<usize>,
    start: int,
    end: int,
    batch: (usize, Range<u32>),
    rest: Seq<(usize, Range<u32>)>,
)
    requires
        0 <= start < end <= slots.len(),
        batch.0 == slots[start],
        batch.1.start == start,
        batch.1.end == end,
        forall|k: int| start <= k < end ==> slots[k] == batch.0,
        end == slots.len() || slots[end] != batch.0,
        runs_from(slots, end, rest),
    ensures
        runs_from(slots, start, seq![batch] + rest),
{
    assert((seq![batch] + rest).drop_first() =~= rest);
    assert((seq![batch] + rest)[0] == batch);
}

/// Lemma: a maximal run starting at `start`, followed by any run list from its end, is a
/// run list from `start`.
proof fn lemma_runs_append(slots: Seq<usize>, start: int, batch: (usize, Range<u32>))
    requires
        0 <= start < batch.1.end <= slots.len(),
        batch.0 == slots[start],
        batch.1.start == start,
        forall|k: int| start <= k < batch.1.end ==> slots[k] == batch.0,
        batch.1.end == slots.len() || slots[batch.1.end as int] != batch.0,
    ensures
        forall|rest: Seq<(usize, Range<u32>)>| runs_from(slots, batch.1.end as int, rest) ==> runs_from(
            slots,
            start,
            #[trigger] (seq![batch] + rest),
        ),
{
    assert forall|rest: Seq<(usize, Range<u32>)>| runs_from(slots, batch.1.end as int, rest) implies runs_from(
        slots,
        start,
        #[trigger] (seq![batch] + rest),
    ) by {
        lemma_runs_extend(slots, start, batch.1.end as int, batch, rest);
    }
}

/// The maximal consecutive runs of equal mesh slots, each with its instance range, in input
/// order. Slots are never reordered: adjacent instances of one geometry share one draw.
pub fn visit_consecutive_batches(slots: &[usize]) -> (batches: Vec<(usize, Range<u32>)>)
    requires
        slots@.len() <= u32::MAX,
    ensures
        runs_from(slots@, 0, batches@),
{
    let mut batches: Vec<(usize, Range<u32>)> = Vec::new();
    let mut start: usize = 0;
    while start < slots.len()
        invariant
            start <= slots@.len() <= u32::MAX,
            forall|rest: Seq<(usize, Range<u32>)>| runs_from(slots@, start as int, rest) ==> runs_from(
                slots@,
                0,
                batches@ + rest,
            ),
        decreases slots@.len() - start,
    {
        let slot = slots[start];
        let mut end = start + 1;
        while end < slots.len() && slots[end] == slot
            invariant
                start < end <= slots@.len(),
                slot == slots@[start as int],
                forall|k: int| start <= k < end ==> slots@[k] == slot,
            decreases slots@.len() - end,
        {
            end = end + 1;
        }
        let batch = (slot, Range { start: start as u32, end: end as u32 });
        proof {
            lemma_runs_append(slots@, start as int, batch);
            assert forall|rest: Seq<(usize, Range<u32>)>| runs_from(slots@, end as int, rest) implies runs_from(
                slots@,
                0,
                batches@.push(batch) + rest,
            ) by {
                assert(runs_from(slots@, start as int, seq![batch] + rest));
                assert(batches@.push(batch) + rest =~= batches@ + (seq![batch] + rest));
            }
        }
        batches.push(batch);
        start = end;
    }
    proof {
        assert(runs_from(slots@, start as int, Seq::<(usize, Range<u32>)>::empty()));
        assert(batches@ + Seq::<(usize, Range<u32>)>::empty() =~= batches@);
    }
    batches
}

} // verus!
