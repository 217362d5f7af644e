//! The availability bitstreams of one subtree of an implicit octree.

use crate::bits::{
    bit_stream_bits, bit_stream_new, bit_stream_push, bit_stream_to_bytes, pack_bits, BitStream,
};
use crate::bytes::{pad_in_place, pad_to_multiple};
use crate::morton::{
    can_list, descendants_in_morton_order, lemma_axes_of_interleave, lemma_can_list,
    lemma_interleave_bound,
};
use crate::occupancy::OctreeOccupancy;
use crate::octant::{
    eight_pow, lemma_eight_pow_bound, lemma_two_pow_positive, two_pow, OctantIndex, MAX_LEVEL,
};
use vstd::arithmetic::div_mod::lemma_fundamental_div_mod;
use vstd::prelude::*;

verus! {

/// The most bits a bitstream can have: `8^10`, the cells on the deepest
/// level that a subtree may reach.
pub const MAX_STREAM_BITS: usize = 1073741824;

/// The most bytes a packed bitstream can have, padding included.
pub const MAX_STREAM_BYTES: usize = 134217728;

/// The number of cells in the first `levels` levels of a subtree:
/// `(8^levels - 1) / 7`.
pub open spec fn subtree_cell_count(levels: nat) -> nat {
    ((eight_pow(levels) - 1) / 7) as nat
}

/// The number of set bits of a stream.
pub open spec fn count_set(bits: Seq<bool>) -> nat
    decreases bits.len(),
{
    if bits.len() == 0 {
        0
    } else {
        count_set(bits.drop_last()) + if bits.last() {
            1nat
        } else {
            0nat
        }
    }
}

/// Which of the two properties of a cell a bitstream records.
#[derive(Debug, Clone, Copy, PartialEq, Eq, Structural)]
pub enum AvailabilityKind {
    /// The cell is occupied.
    Tile,
    /// The cell or a cell below it holds content.
    Content,
}

/// Whether `cell` is available in the sense of `kind`.
pub open spec fn is_available(
    occupancy: &OctreeOccupancy,
    kind: AvailabilityKind,
    cell: OctantIndex,
) -> bool {
    match kind {
        AvailabilityKind::Tile => occupancy.is_occupied(cell),
        AvailabilityKind::Content => occupancy.has_content_below(cell),
    }
}

/// The availability of the cells `level_offset` levels below `base`, in
/// Morton order.
pub open spec fn level_bits(
    occupancy: &OctreeOccupancy,
    kind: AvailabilityKind,
    base: OctantIndex,
    level_offset: nat,
) -> Seq<bool> {
    Seq::new(
        eight_pow(level_offset),
        |code: int| is_available(occupancy, kind, base.nth_descendant(level_offset, code as nat)),
    )
}

/// The availability of the cells in the first `levels` levels of the subtree
/// rooted at `base`: level by level from the root, each level in Morton
/// order.
pub open spec fn subtree_bits(
    occupancy: &OctreeOccupancy,
    kind: AvailabilityKind,
    base: OctantIndex,
    levels: nat,
) -> Seq<bool>
    decreases levels,
{
    if levels == 0 {
        Seq::empty()
    } else {
        subtree_bits(occupancy, kind, base, (levels - 1) as nat) + level_bits(
            occupancy,
            kind,
            base,
            (levels - 1) as nat,
        )
    }
}

/// One availability bitstream and the number of its set bits.
pub struct AvailabilityRecord {
    bit_buffer: BitStream,
    count: u32,
}

impl AvailabilityRecord {
    /// The bits of the stream.
    pub closed spec fn bits(&self) -> Seq<bool> {
        bit_stream_bits(self.bit_buffer)
    }

    /// The recorded number of available cells.
    pub closed spec fn available_count(&self) -> nat {
        self.count as nat
    }

    /// The recorded count is the number of set bits, and the stream is no
    /// longer than the deepest level of a subtree.
    pub open spec fn wf(&self) -> bool {
        &&& self.available_count() == count_set(self.bits())
        &&& self.bits().len() <= MAX_STREAM_BITS
    }

    /// The bytes of the stream, not yet padded for concatenation.
    pub open spec fn bytes(&self) -> Seq<u8> {
        pack_bits(self.bits())
    }

    /// The bytes of the stream, padded with zeros to a multiple of eight.
    pub open spec fn padded_bytes(&self) -> Seq<u8> {
        pad_to_multiple(self.bytes(), 8, 0)
    }

    /// The stream packed into bytes, least significant bit first.
    pub fn buffer(&self) -> (bytes: Vec<u8>)
        ensures
            bytes@ == self.bytes(),
    {
        bit_stream_to_bytes(&self.bit_buffer)
    }

    /// The number of available cells.
    pub fn count(&self) -> (count: u32)
        ensures
            count == self.available_count(),
    {
        self.count
    }

    /// Whether no cell is available.
    pub fn is_empty(&self) -> (empty: bool)
        ensures
            empty == (self.available_count() == 0),
    {
        self.count == 0
    }

    /// The packed stream followed by zero bytes up to a multiple of eight.
    pub fn get_padded_buffer(&self) -> (bytes: Vec<u8>)
        ensures
            bytes@ == self.padded_bytes(),
            bytes@.len() % 8 == 0,
    {
        let mut bytes = self.buffer();
        pad_in_place(&mut bytes, 8, 0);
        bytes
    }
}

/// The cell counts of subtrees as far as a subtree may reach, and their
/// growth with the number of levels.
pub proof fn lemma_subtree_cell_count(levels: nat)
    ensures
        subtree_cell_count(levels + 1) == subtree_cell_count(levels) + eight_pow(levels),
        7 * subtree_cell_count(levels) == eight_pow(levels) - 1,
        subtree_cell_count(levels) <= eight_pow(levels),
        levels <= 10 ==> eight_pow(levels) <= MAX_STREAM_BITS,
    decreases levels,
{
    if levels > 0 {
        lemma_subtree_cell_count((levels - 1) as nat);
    }
    if levels <= 10 {
        lemma_eight_pow_bound(levels, 10);
        assert(eight_pow(10) == MAX_STREAM_BITS) by {
            reveal_with_fuel(eight_pow, 11);
        }
    }
}

/// The bits of a subtree are as many as its cells, and the bit of the cell
/// with relative code `code` at `level_offset` stands behind the bits of all
/// shallower levels.
pub proof fn lemma_subtree_bits(
    occupancy: &OctreeOccupancy,
    kind: AvailabilityKind,
    base: OctantIndex,
    levels: nat,
)
    ensures
        subtree_bits(occupancy, kind, base, levels).len() == subtree_cell_count(levels),
        forall|level_offset: nat, code: nat|
            level_offset < levels && code < eight_pow(level_offset) ==> subtree_bits(
                occupancy,
                kind,
                base,
                levels,
            )[(subtree_cell_count(level_offset) + code) as int] == is_available(
                occupancy,
                kind,
                #[trigger] base.nth_descendant(level_offset, code),
            ),
    decreases levels,
{
    lemma_subtree_cell_count(levels);
    if levels > 0 {
        let shallower = (levels - 1) as nat;
        lemma_subtree_bits(occupancy, kind, base, shallower);
        lemma_subtree_cell_count(shallower);
        let all = subtree_bits(occupancy, kind, base, levels);
        let head = subtree_bits(occupancy, kind, base, shallower);
        let last = level_bits(occupancy, kind, base, shallower);
        assert(all == head + last);
        assert forall|level_offset: nat, code: nat|
            level_offset < levels && code < eight_pow(level_offset) implies all[(
            subtree_cell_count(level_offset) + code) as int] == is_available(
            occupancy,
            kind,
            #[trigger] base.nth_descendant(level_offset, code),
        ) by {
            lemma_subtree_cell_count(level_offset);
            let at = (subtree_cell_count(level_offset) + code) as int;
            if level_offset < shallower {
                lemma_subtree_cell_count_grows(level_offset + 1, shallower);
                assert(all[at] == head[at]);
            } else {
                assert(all[at] == last[code as int]);
            }
        }
    }
}

/// Deeper subtrees have more cells.
pub proof fn lemma_subtree_cell_count_grows(a: nat, b: nat)
    requires
        a <= b,
    ensures
        subtree_cell_count(a) <= subtree_cell_count(b),
    decreases b,
{
    if a < b {
        lemma_subtree_cell_count_grows(a, (b - 1) as nat);
        lemma_subtree_cell_count((b - 1) as nat);
    }
}

/// Appending a bit adds it to the count of set bits.
pub proof fn lemma_count_set_push(bits: Seq<bool>, bit: bool)
    ensures
        count_set(bits.push(bit)) == count_set(bits) + if bit {
            1nat
        } else {
            0nat
        },
        count_set(bits) <= bits.len(),
    decreases bits.len(),
{
    assert(bits.push(bit).drop_last() == bits);
    if bits.len() > 0 {
        lemma_count_set_push(bits.drop_last(), bits.last());
        assert(bits.drop_last().push(bits.last()) == bits);
    }
}

/// Appends the availability of the cells `level_offset` levels below `base`
/// to `bit_buffer` and adds the number of available ones to `count`.
fn push_level(
    bit_buffer: &mut BitStream,
    count: &mut u32,
    occupancy: &OctreeOccupancy,
    kind: AvailabilityKind,
    base: OctantIndex,
    level_offset: u32,
)
    requires
        occupancy.wf(),
        base.is_valid(),
        base.level + level_offset <= MAX_LEVEL,
        can_list(level_offset as nat),
        bit_stream_bits(*old(bit_buffer)).len() <= eight_pow(level_offset as nat),
        *old(count) == count_set(bit_stream_bits(*old(bit_buffer))),
    ensures
        bit_stream_bits(*final(bit_buffer)) == bit_stream_bits(*old(bit_buffer)) + level_bits(
            occupancy,
            kind,
            base,
            level_offset as nat,
        ),
        *final(count) == count_set(bit_stream_bits(*final(bit_buffer))),
{
    let cells = descendants_in_morton_order(&base, level_offset);
    let ghost target = level_bits(occupancy, kind, base, level_offset as nat);
    let ghost before = bit_stream_bits(*bit_buffer);
    proof {
        lemma_subtree_cell_count(level_offset as nat);
        lemma_count_set_push(before, true);
        assert(before + target.subrange(0, 0) == before);
    }
    let mut i: usize = 0;
    while i < cells.len()
        invariant
            occupancy.wf(),
            i <= cells@.len(),
            cells@.len() == eight_pow(level_offset as nat),
            can_list(level_offset as nat),
            cells@.len() <= MAX_STREAM_BITS,
            before.len() <= cells@.len(),
            target == level_bits(occupancy, kind, base, level_offset as nat),
            forall|m: int|
                0 <= m < cells@.len() ==> #[trigger] cells@[m] == base.nth_descendant(
                    level_offset as nat,
                    m as nat,
                ),
            bit_stream_bits(*bit_buffer) == before + target.subrange(0, i as int),
            *count == count_set(bit_stream_bits(*bit_buffer)),
            *count <= before.len() + i,
        decreases cells@.len() - i,
    {
        let cell = cells[i];
        let available = match kind {
            AvailabilityKind::Tile => occupancy.is_cell_occupied(cell),
            AvailabilityKind::Content => occupancy.contains_content_cells(cell),
        };
        proof {
            assert(available == target[i as int]);
            lemma_count_set_push(bit_stream_bits(*bit_buffer), available);
            assert(target.subrange(0, i + 1) == target.subrange(0, i as int).push(available));
            assert((before + target.subrange(0, i as int)).push(available) == before
                + target.subrange(0, i + 1));
        }
        if available {
            *count = *count + 1;
        }
        bit_stream_push(bit_buffer, available);
        i += 1;
    }
    proof {
        assert(target.subrange(0, i as int) == target);
    }
}

/// The availability of the first `levels_per_subtree` levels of the subtree
/// rooted at `base_octant_index`, in the sense of `kind`.
fn collect_subtree(
    base_octant_index: OctantIndex,
    levels_per_subtree: usize,
    occupancy: &OctreeOccupancy,
    kind: AvailabilityKind,
) -> (record: AvailabilityRecord)
    requires
        occupancy.wf(),
        base_octant_index.is_valid(),
        can_list(levels_per_subtree as nat),
        base_octant_index.level + levels_per_subtree <= MAX_LEVEL,
    ensures
        record.wf(),
        record.bits() == subtree_bits(occupancy, kind, base_octant_index, levels_per_subtree as nat),
        record.bits().len() == subtree_cell_count(levels_per_subtree as nat),
{
    let mut bit_buffer = bit_stream_new();
    let mut count: u32 = 0;
    let mut level: usize = 0;
    while level < levels_per_subtree
        invariant
            occupancy.wf(),
            base_octant_index.is_valid(),
            level <= levels_per_subtree,
            can_list(levels_per_subtree as nat),
            base_octant_index.level + levels_per_subtree <= MAX_LEVEL,
            bit_stream_bits(bit_buffer) == subtree_bits(
                occupancy,
                kind,
                base_octant_index,
                level as nat,
            ),
            bit_stream_bits(bit_buffer).len() == subtree_cell_count(level as nat),
            count == count_set(bit_stream_bits(bit_buffer)),
        decreases levels_per_subtree - level,
    {
        proof {
            lemma_subtree_cell_count(level as nat);
            lemma_can_list(level as nat, levels_per_subtree as nat);
        }
        push_level(&mut bit_buffer, &mut count, occupancy, kind, base_octant_index, level as u32);
        level += 1;
    }
    proof {
        lemma_subtree_cell_count(levels_per_subtree as nat);
        lemma_can_list(levels_per_subtree as nat, levels_per_subtree as nat);
    }
    AvailabilityRecord { bit_buffer, count }
}

/// The tile availability of the subtree rooted at `base_octant_index`: one
/// bit for each cell of its first `levels_per_subtree` levels, set where the
/// cell is occupied.
///
/// The subtree may have as many levels as `can_list` admits: at most ten,
/// so that its cells are counted in 32 bits, and no more than the target
/// can hold in one list.
pub fn get_tile_availability_buffer(
    base_octant_index: OctantIndex,
    levels_per_subtree: usize,
    content_octree: &OctreeOccupancy,
) -> (record: AvailabilityRecord)
    requires
        content_octree.wf(),
        base_octant_index.is_valid(),
        can_list(levels_per_subtree as nat),
        base_octant_index.level + levels_per_subtree <= MAX_LEVEL,
    ensures
        record.wf(),
        record.bits() == subtree_bits(
            content_octree,
            AvailabilityKind::Tile,
            base_octant_index,
            levels_per_subtree as nat,
        ),
        record.bits().len() == subtree_cell_count(levels_per_subtree as nat),
{
    collect_subtree(base_octant_index, levels_per_subtree, content_octree, AvailabilityKind::Tile)
}

/// The content availability of the subtree rooted at `base_octant_index`:
/// one bit for each cell of its first `levels_per_subtree` levels, set where
/// the cell or a cell below it holds content.
///
/// The subtree may have as many levels as `can_list` admits: at most ten,
/// so that its cells are counted in 32 bits, and no more than the target
/// can hold in one list.
pub fn get_content_availability_buffer(
    base_octant_index: OctantIndex,
    levels_per_subtree: usize,
    content_octree: &OctreeOccupancy,
) -> (record: AvailabilityRecord)
    requires
        content_octree.wf(),
        base_octant_index.is_valid(),
        can_list(levels_per_subtree as nat),
        base_octant_index.level + levels_per_subtree <= MAX_LEVEL,
    ensures
        record.wf(),
        record.bits() == subtree_bits(
            content_octree,
            AvailabilityKind::Content,
            base_octant_index,
            levels_per_subtree as nat,
        ),
        record.bits().len() == subtree_cell_count(levels_per_subtree as nat),
{
    collect_subtree(
        base_octant_index,
        levels_per_subtree,
        content_octree,
        AvailabilityKind::Content,
    )
}

/// The child-subtree availability of the subtree rooted at
/// `base_octant_index`: one bit for each of the `8^levels_per_subtree` cells
/// just below the subtree, set where the cell is occupied.
///
/// The subtree may have as many levels as `can_list` admits: at most ten,
/// so that its cells are counted in 32 bits, and no more than the target
/// can hold in one list.
pub fn get_child_subtree_availability_buffer(
    base_octant_index: OctantIndex,
    levels_per_subtree: usize,
    content_octree: &OctreeOccupancy,
) -> (record: AvailabilityRecord)
    requires
        content_octree.wf(),
        content_octree.is_occupied(base_octant_index),
        can_list(levels_per_subtree as nat),
        base_octant_index.level + levels_per_subtree <= MAX_LEVEL,
    ensures
        record.wf(),
        record.bits() == level_bits(
            content_octree,
            AvailabilityKind::Tile,
            base_octant_index,
            levels_per_subtree as nat,
        ),
        record.bits().len() == eight_pow(levels_per_subtree as nat),
{
    let mut bit_buffer = bit_stream_new();
    let mut available_cell_count: u32 = 0;
    push_level(
        &mut bit_buffer,
        &mut available_cell_count,
        content_octree,
        AvailabilityKind::Tile,
        base_octant_index,
        levels_per_subtree as u32,
    );
    proof {
        lemma_subtree_cell_count(levels_per_subtree as nat);
        assert(bit_stream_bits(bit_buffer) =~= level_bits(
            content_octree,
            AvailabilityKind::Tile,
            base_octant_index,
            levels_per_subtree as nat,
        ));
    }
    AvailabilityRecord { bit_buffer, count: available_cell_count }
}

/// The bit of a cell of a subtree tells the availability of the cell: it
/// stands behind the bits of all shallower levels, at the Morton position
/// that the cell has below the root of the subtree.
pub proof fn lemma_bit_of_cell(
    occupancy: &OctreeOccupancy,
    kind: AvailabilityKind,
    base: OctantIndex,
    levels: nat,
    cell: OctantIndex,
)
    requires
        cell.is_valid(),
        base.is_ancestor_or_self_of(cell),
        cell.level - base.level < levels,
    ensures
        ({
            let depth = (cell.level - base.level) as nat;
            let position = subtree_cell_count(depth) + cell.relative_code(depth);
            &&& position < subtree_cell_count(levels)
            &&& subtree_bits(occupancy, kind, base, levels)[position as int] == is_available(
                occupancy,
                kind,
                cell,
            )
        }),
{
    let depth = (cell.level - base.level) as nat;
    let code = cell.relative_code(depth);
    let n = two_pow(depth);
    lemma_two_pow_positive(depth);
    lemma_interleave_bound(
        cell.x as nat % n,
        cell.y as nat % n,
        cell.z as nat % n,
        depth,
    );
    lemma_axes_of_interleave(cell.x as nat % n, cell.y as nat % n, cell.z as nat % n, depth);
    lemma_fundamental_div_mod(cell.x as int, n as int);
    lemma_fundamental_div_mod(cell.y as int, n as int);
    lemma_fundamental_div_mod(cell.z as int, n as int);
    assert(base.x * n == n * base.x) by (nonlinear_arith);
    assert(base.y * n == n * base.y) by (nonlinear_arith);
    assert(base.z * n == n * base.z) by (nonlinear_arith);
    assert(base.nth_descendant(depth, code) == cell);
    lemma_subtree_bits(occupancy, kind, base, levels);
    lemma_subtree_cell_count(depth);
    lemma_subtree_cell_count_grows(depth + 1, levels);
}

} // verus!
