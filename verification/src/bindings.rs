//! The buffers that each kernel binds, and how.

use vstd::prelude::*;

verus! {

/// How a kernel uses a buffer.
#[derive(Clone, Copy, Debug, PartialEq, Eq, Structural)]
pub enum BindingKind {
    /// A storage buffer that the kernel reads and writes.
    StorageReadWrite,
    /// A storage buffer that the kernel only reads.
    StorageReadOnly,
    /// A uniform buffer.
    Uniform,
}

/// The buffers of the engine.
#[derive(Clone, Copy, Debug, PartialEq, Eq, Structural)]
pub enum BufferName {
    Positions,
    PreviousPositions,
    Radii,
    PositionsCopy,
    PreviousPositionsCopy,
    RadiiCopy,
    HomeCellIds,
    ParticleIds,
    GridUniform,
    CellIds,
    ObjectIds,
    SortKeys,
    SortPayload,
    SortKeysAlt,
    SortPayloadAlt,
    SortHistogram,
    PrefixData,
    PrefixIntermediate,
    ChunkCounts,
    CollisionCells,
    IndirectArgs,
    BuilderUniform,
    SolverUniform,
}

/// The kernels of the engine.
#[derive(Clone, Copy, Debug, PartialEq, Eq, Structural)]
pub enum Kernel {
    Integration,
    BuildCellIds,
    RadixSort,
    PrefixSum,
    CollisionCellBuilder,
    CollisionSolver,
    HomeCellIds,
    Rearrange,
}

/// One entry of a kernel's bind group.
#[derive(Clone, Copy, Debug, PartialEq, Eq, Structural)]
pub struct BindGroupLayoutEntry {
    pub binding: u32,
    pub kind: BindingKind,
    pub buffer: BufferName,
}

/// The entry of `buffer` at `binding`.
pub open spec fn entry(binding: u32, kind: BindingKind,
    buffer: BufferName) -> BindGroupLayoutEntry {
    BindGroupLayoutEntry { binding, kind, buffer }
}

/// The bind group of each kernel.
pub open spec fn layout_of(kernel: Kernel) -> Seq<BindGroupLayoutEntry> {
    match kernel {
        Kernel::Integration => seq![
            entry(0, BindingKind::StorageReadWrite, BufferName::Positions),
            entry(1, BindingKind::StorageReadWrite, BufferName::PreviousPositions),
            entry(2, BindingKind::StorageReadOnly, BufferName::Radii),
        ],
        Kernel::BuildCellIds => seq![
            entry(0, BindingKind::StorageReadWrite, BufferName::Positions),
            entry(1, BindingKind::Uniform, BufferName::GridUniform),
            entry(2, BindingKind::StorageReadWrite, BufferName::CellIds),
            entry(3, BindingKind::StorageReadWrite, BufferName::ObjectIds),
            entry(4, BindingKind::StorageReadOnly, BufferName::Radii),
        ],
        Kernel::RadixSort => seq![
            entry(0, BindingKind::StorageReadWrite, BufferName::SortKeys),
            entry(1, BindingKind::StorageReadWrite, BufferName::SortHistogram),
            entry(2, BindingKind::StorageReadWrite, BufferName::SortPayload),
            entry(3, BindingKind::StorageReadWrite, BufferName::SortKeysAlt),
            entry(4, BindingKind::StorageReadWrite, BufferName::SortPayloadAlt),
        ],
        Kernel::PrefixSum => seq![
            entry(0, BindingKind::StorageReadWrite, BufferName::PrefixData),
            entry(1, BindingKind::StorageReadWrite, BufferName::PrefixIntermediate),
        ],
        Kernel::CollisionCellBuilder => seq![
            entry(0, BindingKind::StorageReadWrite, BufferName::ChunkCounts),
            entry(1, BindingKind::StorageReadWrite, BufferName::CollisionCells),
            entry(2, BindingKind::StorageReadWrite, BufferName::IndirectArgs),
            entry(3, BindingKind::Uniform, BufferName::BuilderUniform),
            entry(4, BindingKind::StorageReadOnly, BufferName::CellIds),
        ],
        Kernel::CollisionSolver => seq![
            entry(0, BindingKind::StorageReadOnly, BufferName::ChunkCounts),
            entry(1, BindingKind::StorageReadOnly, BufferName::CollisionCells),
            entry(2, BindingKind::StorageReadOnly, BufferName::CellIds),
            entry(3, BindingKind::StorageReadOnly, BufferName::ObjectIds),
            entry(4, BindingKind::StorageReadWrite, BufferName::Positions),
            entry(5, BindingKind::StorageReadOnly, BufferName::Radii),
            entry(6, BindingKind::Uniform, BufferName::SolverUniform),
        ],
        Kernel::HomeCellIds => seq![
            entry(0, BindingKind::StorageReadWrite, BufferName::Positions),
            entry(1, BindingKind::StorageReadWrite, BufferName::HomeCellIds),
            entry(2, BindingKind::StorageReadWrite, BufferName::ParticleIds),
        ],
        Kernel::Rearrange => seq![
            entry(0, BindingKind::StorageReadOnly, BufferName::Positions),
            entry(1, BindingKind::StorageReadOnly, BufferName::Radii),
            entry(2, BindingKind::StorageReadOnly, BufferName::PreviousPositions),
            entry(3, BindingKind::StorageReadOnly, BufferName::ParticleIds),
            entry(4, BindingKind::StorageReadWrite, BufferName::PositionsCopy),
            entry(5, BindingKind::StorageReadWrite, BufferName::RadiiCopy),
            entry(6, BindingKind::StorageReadWrite, BufferName::PreviousPositionsCopy),
        ],
    }
}

/// The caller's buffer or the sorter's own that stands for `buffer` in a
/// pass of the radix sort: with `ping_pong` set the pass reads the caller's
/// keys and payload and writes the sorter's; else the other way round.
pub open spec fn sort_binding(buffer: BufferName, ping_pong: bool) -> BufferName {
    if ping_pong {
        buffer
    } else {
        match buffer {
            BufferName::SortKeys => BufferName::SortKeysAlt,
            BufferName::SortPayload => BufferName::SortPayloadAlt,
            BufferName::SortKeysAlt => BufferName::SortKeys,
            BufferName::SortPayloadAlt => BufferName::SortPayload,
            other => other,
        }
    }
}

fn make_entry(binding: u32, kind: BindingKind, buffer: BufferName) -> (made: BindGroupLayoutEntry)
    ensures
        made == entry(binding, kind, buffer),
{
    BindGroupLayoutEntry { binding, kind, buffer }
}

/// The entries of the bind group of `kernel`, in the order of their bindings.
pub fn create_bind_group_layout(kernel: Kernel) -> (entries: Vec<BindGroupLayoutEntry>)
    ensures
        entries@ == layout_of(kernel),
{
    let mut entries: Vec<BindGroupLayoutEntry> = Vec::new();
    match kernel {
        Kernel::Integration => {
            entries.push(make_entry(0, BindingKind::StorageReadWrite, BufferName::Positions));
            entries.push(
                make_entry(1, BindingKind::StorageReadWrite, BufferName::PreviousPositions),
            );
            entries.push(make_entry(2, BindingKind::StorageReadOnly, BufferName::Radii));
        },
        Kernel::BuildCellIds => {
            entries.push(make_entry(0, BindingKind::StorageReadWrite, BufferName::Positions));
            entries.push(make_entry(1, BindingKind::Uniform, BufferName::GridUniform));
            entries.push(make_entry(2, BindingKind::StorageReadWrite, BufferName::CellIds));
            entries.push(make_entry(3, BindingKind::StorageReadWrite, BufferName::ObjectIds));
            entries.push(make_entry(4, BindingKind::StorageReadOnly, BufferName::Radii));
        },
        Kernel::RadixSort => {
            entries.push(make_entry(0, BindingKind::StorageReadWrite, BufferName::SortKeys));
            entries.push(make_entry(1, BindingKind::StorageReadWrite, BufferName::SortHistogram));
            entries.push(make_entry(2, BindingKind::StorageReadWrite, BufferName::SortPayload));
            entries.push(make_entry(3, BindingKind::StorageReadWrite, BufferName::SortKeysAlt));
            entries.push(make_entry(4, BindingKind::StorageReadWrite, BufferName::SortPayloadAlt));
        },
        Kernel::PrefixSum => {
            entries.push(make_entry(0, BindingKind::StorageReadWrite, BufferName::PrefixData));
            entries.push(
                make_entry(1, BindingKind::StorageReadWrite, BufferName::PrefixIntermediate),
            );
        },
        Kernel::CollisionCellBuilder => {
            entries.push(make_entry(0, BindingKind::StorageReadWrite, BufferName::ChunkCounts));
            entries.push(make_entry(1, BindingKind::StorageReadWrite, BufferName::CollisionCells));
            entries.push(make_entry(2, BindingKind::StorageReadWrite, BufferName::IndirectArgs));
            entries.push(make_entry(3, BindingKind::Uniform, BufferName::BuilderUniform));
            entries.push(make_entry(4, BindingKind::StorageReadOnly, BufferName::CellIds));
        },
        Kernel::CollisionSolver => {
            entries.push(make_entry(0, BindingKind::StorageReadOnly, BufferName::ChunkCounts));
            entries.push(make_entry(1, BindingKind::StorageReadOnly, BufferName::CollisionCells));
            entries.push(make_entry(2, BindingKind::StorageReadOnly, BufferName::CellIds));
            entries.push(make_entry(3, BindingKind::StorageReadOnly, BufferName::ObjectIds));
            entries.push(make_entry(4, BindingKind::StorageReadWrite, BufferName::Positions));
            entries.push(make_entry(5, BindingKind::StorageReadOnly, BufferName::Radii));
            entries.push(make_entry(6, BindingKind::Uniform, BufferName::SolverUniform));
        },
        Kernel::HomeCellIds => {
            entries.push(make_entry(0, BindingKind::StorageReadWrite, BufferName::Positions));
            entries.push(make_entry(1, BindingKind::StorageReadWrite, BufferName::HomeCellIds));
            entries.push(make_entry(2, BindingKind::StorageReadWrite, BufferName::ParticleIds));
        },
        Kernel::Rearrange => {
            entries.push(make_entry(0, BindingKind::StorageReadOnly, BufferName::Positions));
            entries.push(make_entry(1, BindingKind::StorageReadOnly, BufferName::Radii));
            entries.push(make_entry(2, BindingKind::StorageReadOnly,
                BufferName::PreviousPositions));
            entries.push(make_entry(3, BindingKind::StorageReadOnly, BufferName::ParticleIds));
            entries.push(make_entry(4, BindingKind::StorageReadWrite, BufferName::PositionsCopy));
            entries.push(make_entry(5, BindingKind::StorageReadWrite, BufferName::RadiiCopy));
            entries.push(
                make_entry(6, BindingKind::StorageReadWrite, BufferName::PreviousPositionsCopy),
            );
        },
    }
    assert(entries@ =~= layout_of(kernel));
    entries
}

/// The buffers of one pass of the radix sort, in the order of the
/// bindings of its kernels.
pub fn create_sort_bind_group(ping_pong: bool) -> (buffers: Vec<BufferName>)
    ensures
        buffers@ == layout_of(Kernel::RadixSort).map_values(
            |e: BindGroupLayoutEntry| sort_binding(e.buffer, ping_pong),
        ),
{
    let mut buffers: Vec<BufferName> = Vec::new();
    if ping_pong {
        buffers.push(BufferName::SortKeys);
        buffers.push(BufferName::SortHistogram);
        buffers.push(BufferName::SortPayload);
        buffers.push(BufferName::SortKeysAlt);
        buffers.push(BufferName::SortPayloadAlt);
    } else {
        buffers.push(BufferName::SortKeysAlt);
        buffers.push(BufferName::SortHistogram);
        buffers.push(BufferName::SortPayloadAlt);
        buffers.push(BufferName::SortKeys);
        buffers.push(BufferName::SortPayload);
    }
    assert(buffers@ =~= layout_of(Kernel::RadixSort).map_values(
        |e: BindGroupLayoutEntry| sort_binding(e.buffer, ping_pong),
    ));
    buffers
}

/// The bindings of every kernel are numbered from zero on without a gap.
pub proof fn lemma_bindings_are_numbered(kernel: Kernel, i: int)
    requires
        0 <= i < layout_of(kernel).len(),
    ensures
        layout_of(kernel)[i].binding == i,
        layout_of(kernel).len() <= 7,
{
}

/// The rearranging kernel only reads the particles and only writes their
/// copies: no buffer is both read and written, so that its threads can
/// run in any order.
pub proof fn lemma_rearrange_reads_and_writes_apart(i: int, j: int)
    requires
        0 <= i < layout_of(Kernel::Rearrange).len(),
        0 <= j < layout_of(Kernel::Rearrange).len(),
        layout_of(Kernel::Rearrange)[i].kind == BindingKind::StorageReadOnly,
        layout_of(Kernel::Rearrange)[j].kind == BindingKind::StorageReadWrite,
    ensures
        layout_of(Kernel::Rearrange)[i].buffer != layout_of(Kernel::Rearrange)[j].buffer,
{
}

} // verus!
