//! Morton order: the space-filling order in which the cells below an octant
//! are laid out in an availability bitstream.

use crate::octant::{
    eight_pow, lemma_block_offset, lemma_descendant_valid, lemma_eight_pow_cube,
    lemma_two_pow_bound, lemma_two_pow_positive, two_pow, OctantIndex, MAX_LEVEL,
};
use vstd::arithmetic::div_mod::{
    lemma_div_denominator, lemma_fundamental_div_mod, lemma_mod_bound, lemma_multiply_divide_lt,
};
use vstd::prelude::*;

verus! {

/// Bits of each coordinate that the Morton encoder interleaves.
pub const MORTON_BITS: u32 = 21;

/// The most levels a subtree may span: with more, the `8^levels` cells just
/// below a subtree cannot be counted in the 32 bits that a subtree document
/// has for a count.
pub const MAX_LEVEL_OFFSET: u32 = 10;

/// The most bytes that a cell takes in the lists in which ecoord hands the
/// cells of one level out.
pub const LISTED_CELL_BYTES: usize = 40;

/// The cells `level_offset` levels below a cell can be listed: they can be
/// counted in 32 bits, and a list of them is no longer than half the
/// address space, the most that can be allocated at once.
pub open spec fn can_list(level_offset: nat) -> bool {
    &&& level_offset <= MAX_LEVEL_OFFSET
    &&& eight_pow(level_offset) * 2 * LISTED_CELL_BYTES <= usize::MAX
}

/// With the cells of a level those of every shallower level can be listed;
/// a level that can be listed has at most `8^10` cells.
pub proof fn lemma_can_list(shallower: nat, level_offset: nat)
    requires
        shallower <= level_offset,
        can_list(level_offset),
    ensures
        can_list(shallower),
        eight_pow(shallower) <= eight_pow(level_offset) <= 1073741824,
{
    crate::octant::lemma_eight_pow_bound(shallower, level_offset);
    crate::octant::lemma_eight_pow_bound(level_offset, 10);
    assert(eight_pow(10) == 1073741824) by {
        reveal_with_fuel(eight_pow, 11);
    }
}

/// Whether the cells `level_offset` levels below a cell can be listed.
pub fn check_can_list(level_offset: usize) -> (fits: bool)
    ensures
        fits == can_list(level_offset as nat),
{
    if level_offset > MAX_LEVEL_OFFSET as usize {
        return false;
    }
    let mut cells: u64 = 1;
    let mut done: usize = 0;
    while done < level_offset
        invariant
            done <= level_offset <= MAX_LEVEL_OFFSET,
            cells == eight_pow(done as nat),
            cells <= 1073741824,
        decreases level_offset - done,
    {
        proof {
            crate::octant::lemma_eight_pow_bound((done + 1) as nat, 10);
            assert(eight_pow(10) == 1073741824) by {
                reveal_with_fuel(eight_pow, 11);
            }
        }
        cells = cells * 8;
        done = done + 1;
    }
    cells * 2 * (LISTED_CELL_BYTES as u64) <= usize::MAX as u64
}

/// The bit that the octal digit `digit` contributes to the coordinate along
/// `axis`: x is bit 0, y bit 1, z bit 2.
pub open spec fn axis_bit(digit: nat, axis: nat) -> nat {
    if axis == 0 {
        digit % 2
    } else if axis == 1 {
        (digit / 2) % 2
    } else {
        (digit / 4) % 2
    }
}

/// The coordinate along `axis` that the Morton code `code` of `bits` octal
/// digits stands for.
pub open spec fn morton_axis(code: nat, bits: nat, axis: nat) -> nat
    decreases bits,
{
    if bits == 0 {
        0
    } else {
        axis_bit(code % 8, axis) + 2 * morton_axis(code / 8, (bits - 1) as nat, axis)
    }
}

/// The Morton code of the low `bits` bits of three coordinates: their bits
/// interleaved, x lowest.
pub open spec fn interleave(x: nat, y: nat, z: nat, bits: nat) -> nat
    decreases bits,
{
    if bits == 0 {
        0
    } else {
        x % 2 + 2 * (y % 2) + 4 * (z % 2) + 8 * interleave(x / 2, y / 2, z / 2, (bits - 1) as nat)
    }
}

impl OctantIndex {
    /// The cell `level_offset` levels below `self` that has Morton code
    /// `code` among the cells that `self` covers there.
    pub open spec fn nth_descendant(self, level_offset: nat, code: nat) -> OctantIndex {
        self.descendant(
            level_offset,
            morton_axis(code, level_offset, 0),
            morton_axis(code, level_offset, 1),
            morton_axis(code, level_offset, 2),
        )
    }

    /// The Morton code of `self` among the cells of the ancestor
    /// `level_offset` levels up.
    pub open spec fn relative_code(self, level_offset: nat) -> nat {
        interleave(
            self.x as nat % two_pow(level_offset),
            self.y as nat % two_pow(level_offset),
            self.z as nat % two_pow(level_offset),
            level_offset,
        )
    }

    /// The code by which the Morton sort orders cells of one level.
    pub open spec fn morton_code(self) -> nat {
        interleave(self.x as nat, self.y as nat, self.z as nat, MORTON_BITS as nat)
    }

    /// The order of the Morton sort: by level, then by code.
    pub open spec fn morton_le(self, other: OctantIndex) -> bool {
        self.level < other.level || (self.level == other.level && self.morton_code()
            <= other.morton_code())
    }

    /// Every coordinate fits into 32 bits.
    pub open spec fn fits_morton(self) -> bool {
        self.x <= u32::MAX && self.y <= u32::MAX && self.z <= u32::MAX
    }
}

/// A Morton code of `bits` digits lies below `8^bits`.
pub proof fn lemma_interleave_bound(x: nat, y: nat, z: nat, bits: nat)
    ensures
        interleave(x, y, z, bits) < eight_pow(bits),
    decreases bits,
{
    if bits > 0 {
        lemma_interleave_bound(x / 2, y / 2, z / 2, (bits - 1) as nat);
    }
}

/// Taking a code apart gives back the coordinates it was made of.
pub proof fn lemma_axes_of_interleave(x: nat, y: nat, z: nat, bits: nat)
    requires
        x < two_pow(bits),
        y < two_pow(bits),
        z < two_pow(bits),
    ensures
        morton_axis(interleave(x, y, z, bits), bits, 0) == x,
        morton_axis(interleave(x, y, z, bits), bits, 1) == y,
        morton_axis(interleave(x, y, z, bits), bits, 2) == z,
    decreases bits,
{
    if bits > 0 {
        lemma_axes_of_interleave(x / 2, y / 2, z / 2, (bits - 1) as nat);
        let rest = interleave(x / 2, y / 2, z / 2, (bits - 1) as nat);
        let code = interleave(x, y, z, bits);
        assert(code == x % 2 + 2 * (y % 2) + 4 * (z % 2) + 8 * rest);
        assert(code / 8 == rest);
        assert(code % 8 == x % 2 + 2 * (y % 2) + 4 * (z % 2));
    }
}

/// Interleaving the coordinates of a code gives the code back, and the
/// coordinates lie within the level.
pub proof fn lemma_interleave_of_axes(code: nat, bits: nat)
    requires
        code < eight_pow(bits),
    ensures
        morton_axis(code, bits, 0) < two_pow(bits),
        morton_axis(code, bits, 1) < two_pow(bits),
        morton_axis(code, bits, 2) < two_pow(bits),
        interleave(
            morton_axis(code, bits, 0),
            morton_axis(code, bits, 1),
            morton_axis(code, bits, 2),
            bits,
        ) == code,
    decreases bits,
{
    if bits > 0 {
        lemma_interleave_of_axes(code / 8, (bits - 1) as nat);
        let digit = code % 8;
        let x = morton_axis(code, bits, 0);
        let y = morton_axis(code, bits, 1);
        let z = morton_axis(code, bits, 2);
        let xr = morton_axis(code / 8, (bits - 1) as nat, 0);
        let yr = morton_axis(code / 8, (bits - 1) as nat, 1);
        let zr = morton_axis(code / 8, (bits - 1) as nat, 2);
        assert(x == digit % 2 + 2 * xr);
        assert(y == (digit / 2) % 2 + 2 * yr);
        assert(z == (digit / 4) % 2 + 2 * zr);
        assert(x / 2 == xr && y / 2 == yr && z / 2 == zr);
        assert(x % 2 + 2 * (y % 2) + 4 * (z % 2) == digit);
    }
}

/// The code of a cell in block `(hx, hy, hz)` of side `2^low` is the code of
/// its offset within the block, behind the code of the block.
pub proof fn lemma_interleave_block(
    hx: nat,
    hy: nat,
    hz: nat,
    i: nat,
    j: nat,
    k: nat,
    low: nat,
    high: nat,
)
    requires
        i < two_pow(low),
        j < two_pow(low),
        k < two_pow(low),
    ensures
        interleave(
            hx * two_pow(low) + i,
            hy * two_pow(low) + j,
            hz * two_pow(low) + k,
            low + high,
        ) == interleave(i, j, k, low) + eight_pow(low) * interleave(hx, hy, hz, high),
    decreases low,
{
    let n = two_pow(low);
    if low == 0 {
        assert(hx * n + i == hx && hy * n + j == hy && hz * n + k == hz) by (nonlinear_arith)
            requires
                n == 1,
                i == 0,
                j == 0,
                k == 0,
        ;
        assert(eight_pow(low) * interleave(hx, hy, hz, high) == interleave(hx, hy, hz, high))
            by (nonlinear_arith)
            requires
                eight_pow(low) == 1,
        ;
    } else {
        let half = two_pow((low - 1) as nat);
        lemma_interleave_block(hx, hy, hz, i / 2, j / 2, k / 2, (low - 1) as nat, high);
        lemma_half_of_block(hx, half, i);
        lemma_half_of_block(hy, half, j);
        lemma_half_of_block(hz, half, k);
        let upper = interleave(hx, hy, hz, high);
        let inner = interleave(i / 2, j / 2, k / 2, (low - 1) as nat);
        let e = eight_pow((low - 1) as nat);
        assert(8 * (inner + e * upper) == 8 * inner + (8 * e) * upper) by (nonlinear_arith);
        assert(interleave(hx * n + i, hy * n + j, hz * n + k, low + high) == i % 2 + 2 * (j % 2)
            + 4 * (k % 2) + 8 * interleave(
            hx * half + i / 2,
            hy * half + j / 2,
            hz * half + k / 2,
            (low - 1 + high) as nat,
        ));
    }
}

/// Halving a position within a block of even side `2 * half`.
proof fn lemma_half_of_block(h: nat, half: nat, i: nat)
    ensures
        (h * (2 * half) + i) % 2 == i % 2,
        (h * (2 * half) + i) / 2 == h * half + i / 2,
{
    assert(h * (2 * half) == 2 * (h * half)) by (nonlinear_arith);
}

/// Position `p` in the row-major listing of an `n * n * n` block stands for
/// the offsets `(p / n², (p / n) % n, p % n)`, each below `n`, and the
/// offsets determine the position.
pub proof fn lemma_block_position(p: int, n: int)
    requires
        0 < n,
        0 <= p < n * n * n,
    ensures
        0 <= p / (n * n) < n,
        0 <= (p / n) % n < n,
        0 <= p % n < n,
        p == (p / (n * n) * n + (p / n) % n) * n + p % n,
{
    lemma_fundamental_div_mod(p, n);
    lemma_mod_bound(p, n);
    let q = p / n;
    assert(n * n * n == n * (n * n)) by (nonlinear_arith);
    lemma_multiply_divide_lt(p, n, n * n);
    vstd::arithmetic::div_mod::lemma_div_pos_is_pos(p, n);
    lemma_fundamental_div_mod(q, n);
    lemma_mod_bound(q, n);
    lemma_multiply_divide_lt(q, n, n);
    vstd::arithmetic::div_mod::lemma_div_pos_is_pos(q, n);
    lemma_div_denominator(p, n, n);
    assert(n * (p / n) == (p / n) * n) by (nonlinear_arith);
    assert(n * (q / n) == (q / n) * n) by (nonlinear_arith);
}

/// A strictly increasing run of `len` integers that stays within
/// `[0, len)` is `0, 1, 2, …`.
pub proof fn lemma_increasing_run_is_identity(run: Seq<int>, at: int)
    requires
        forall|a: int| 0 <= a < run.len() ==> 0 <= #[trigger] run[a] < run.len(),
        forall|a: int, b: int| 0 <= a < b < run.len() ==> #[trigger] run[a] < #[trigger] run[b],
        0 <= at < run.len(),
    ensures
        run[at] == at,
{
    lemma_increasing_run_lower(run, at);
    lemma_increasing_run_upper(run, at);
}

proof fn lemma_increasing_run_lower(run: Seq<int>, at: int)
    requires
        forall|a: int| 0 <= a < run.len() ==> 0 <= #[trigger] run[a] < run.len(),
        forall|a: int, b: int| 0 <= a < b < run.len() ==> #[trigger] run[a] < #[trigger] run[b],
        0 <= at < run.len(),
    ensures
        run[at] >= at,
    decreases at,
{
    if at > 0 {
        lemma_increasing_run_lower(run, at - 1);
    }
}

proof fn lemma_increasing_run_upper(run: Seq<int>, at: int)
    requires
        forall|a: int| 0 <= a < run.len() ==> 0 <= #[trigger] run[a] < run.len(),
        forall|a: int, b: int| 0 <= a < b < run.len() ==> #[trigger] run[a] < #[trigger] run[b],
        0 <= at < run.len(),
    ensures
        run[at] <= at,
    decreases run.len() - at,
{
    if at + 1 < run.len() {
        lemma_increasing_run_upper(run, at + 1);
    }
}

/// What the row-major listing of the cells `level_offset` levels below
/// `base` holds at position `p`: x varies slowest, z fastest.
pub open spec fn listed_descendant(base: OctantIndex, level_offset: nat, p: int) -> OctantIndex {
    let n = two_pow(level_offset) as int;
    base.descendant(level_offset, (p / (n * n)) as nat, ((p / n) % n) as nat, (p % n) as nat)
}

/// The code that every cell `level_offset` levels below `base` shares in
/// the digits above its relative code.
pub open spec fn block_code(base: OctantIndex, level_offset: nat) -> nat {
    eight_pow(level_offset) * interleave(
        base.x as nat,
        base.y as nat,
        base.z as nat,
        (MORTON_BITS - level_offset) as nat,
    )
}

/// `cell` lies `level_offset` levels below `base`, and the Morton sort
/// orders it among its siblings by its relative code.
pub open spec fn in_block(base: OctantIndex, level_offset: nat, cell: OctantIndex) -> bool {
    &&& cell.is_valid()
    &&& cell.level == base.level + level_offset
    &&& cell.relative_code(level_offset) < eight_pow(level_offset)
    &&& cell == base.nth_descendant(level_offset, cell.relative_code(level_offset))
    &&& cell.morton_code() == cell.relative_code(level_offset) + block_code(base, level_offset)
}

/// Every cell of the row-major listing lies in the block below `base`, and
/// its position determines its offsets.
pub proof fn lemma_listed_descendant(base: OctantIndex, level_offset: nat, p: int)
    requires
        base.is_valid(),
        base.level + level_offset <= MAX_LEVEL,
        level_offset <= MORTON_BITS,
        0 <= p < eight_pow(level_offset),
    ensures
        in_block(base, level_offset, listed_descendant(base, level_offset, p)),
        ({
            let n = two_pow(level_offset) as int;
            let cell = listed_descendant(base, level_offset, p);
            p == ((cell.x - base.x * n) * n + (cell.y - base.y * n)) * n + (cell.z - base.z * n)
        }),
{
    let n = two_pow(level_offset);
    let side = n as int;
    let cell = listed_descendant(base, level_offset, p);
    lemma_eight_pow_cube(level_offset);
    lemma_two_pow_positive(level_offset);
    lemma_block_position(p, side);
    let i = (p / (side * side)) as nat;
    let j = ((p / side) % side) as nat;
    let k = (p % side) as nat;
    lemma_descendant_valid(base, level_offset, i, j, k);
    let m = two_pow(base.level as nat);
    lemma_block_offset(base.x as nat, m, n, i);
    lemma_block_offset(base.y as nat, m, n, j);
    lemma_block_offset(base.z as nat, m, n, k);
    assert(cell.relative_code(level_offset) == interleave(i, j, k, level_offset));
    lemma_interleave_bound(i, j, k, level_offset);
    lemma_axes_of_interleave(i, j, k, level_offset);
    lemma_interleave_block(
        base.x as nat,
        base.y as nat,
        base.z as nat,
        i,
        j,
        k,
        level_offset,
        (MORTON_BITS - level_offset) as nat,
    );
}

/// The one order in which a Morton sort can leave the row-major listing of
/// the cells below `base`: position `m` holds the cell with relative code `m`.
pub proof fn lemma_morton_sorted_block(
    base: OctantIndex,
    level_offset: nat,
    listed: Seq<OctantIndex>,
    sorted: Seq<OctantIndex>,
)
    requires
        base.is_valid(),
        base.level + level_offset <= MAX_LEVEL,
        level_offset <= MORTON_BITS,
        listed.len() == eight_pow(level_offset),
        forall|p: int|
            0 <= p < listed.len() ==> #[trigger] listed[p] == listed_descendant(
                base,
                level_offset,
                p,
            ),
        sorted.to_multiset() == listed.to_multiset(),
        forall|a: int, b: int|
            0 <= a < b < sorted.len() ==> (#[trigger] sorted[a]).morton_le(#[trigger] sorted[b]),
    ensures
        sorted.len() == listed.len(),
        forall|m: int|
            0 <= m < sorted.len() ==> #[trigger] sorted[m] == base.nth_descendant(
                level_offset,
                m as nat,
            ),
{
    assert forall|p: int, q: int|
        0 <= p < listed.len() && 0 <= q < listed.len() && p != q implies listed[p] != listed[q] by {
        lemma_listed_descendant(base, level_offset, p);
        lemma_listed_descendant(base, level_offset, q);
    }
    assert(listed.no_duplicates());
    listed.lemma_multiset_has_no_duplicates();
    listed.to_multiset_ensures();
    sorted.to_multiset_ensures();
    sorted.lemma_multiset_has_no_duplicates_conv();
    assert forall|m: int| 0 <= m < sorted.len() implies in_block(
        base,
        level_offset,
        #[trigger] sorted[m],
    ) by {
        assert(sorted.contains(sorted[m]));
        assert(sorted.to_multiset().count(sorted[m]) > 0);
        assert(listed.to_multiset().count(sorted[m]) > 0);
        assert(listed.contains(sorted[m]));
        let p = choose|p: int| 0 <= p < listed.len() && listed[p] == sorted[m];
        lemma_listed_descendant(base, level_offset, p);
    }
    let run = Seq::new(sorted.len(), |m: int| sorted[m].relative_code(level_offset) as int);
    assert forall|a: int, b: int| 0 <= a < b < run.len() implies #[trigger] run[a]
        < #[trigger] run[b] by {
        assert(sorted[a].morton_le(sorted[b]));
        assert(in_block(base, level_offset, sorted[a]));
        assert(in_block(base, level_offset, sorted[b]));
        if run[a] == run[b] {
            assert(sorted[a] == sorted[b]);
        }
    }
    assert forall|m: int| 0 <= m < sorted.len() implies #[trigger] sorted[m]
        == base.nth_descendant(level_offset, m as nat) by {
        assert(in_block(base, level_offset, sorted[m]));
        assert forall|a: int| 0 <= a < run.len() implies 0 <= #[trigger] run[a] < run.len() by {
            assert(in_block(base, level_offset, sorted[a]));
        }
        lemma_increasing_run_is_identity(run, m);
    }
}

/// `OctantIndex::get_descendents` of ecoord: the cells `level_offset` levels
/// below `base`, listed row by row with x slowest and z fastest. The crate
/// panics on a cell that is not valid and where the list is too long to be
/// allocated; `requires` leaves both out.
#[verifier::external_body]
fn get_descendents(base: &OctantIndex, level_offset: u32) -> (cells: Vec<OctantIndex>)
    requires
        base.is_valid(),
        base.level + level_offset <= MAX_LEVEL,
        can_list(level_offset as nat),
    ensures
        cells@.len() == eight_pow(level_offset as nat),
        forall|p: int|
            0 <= p < cells@.len() ==> #[trigger] cells@[p] == listed_descendant(
                *base,
                level_offset as nat,
                p,
            ),
{
    ecoord::octree::OctantIndex::new_unchecked(base.level, base.x, base.y, base.z)
        .get_descendents(level_offset)
        .iter()
        .map(|cell| OctantIndex { level: cell.level, x: cell.x, y: cell.y, z: cell.z })
        .collect()
}

/// `VecOctantIndexExt::sort_by_morton_indices` of ecoord: it fails exactly
/// when a coordinate does not fit into 32 bits, and otherwise returns the
/// cells reordered by level and, within a level, by the interleaved low
/// bits of their coordinates.
#[verifier::external_body]
fn sort_by_morton_indices(cells: &Vec<OctantIndex>) -> (r: Result<
    Vec<OctantIndex>,
    std::io::Error,
>)
    ensures
        r is Ok <==> forall|p: int| 0 <= p < cells@.len() ==> (#[trigger] cells@[p]).fits_morton(),
        r matches Ok(sorted) ==> {
            &&& sorted@.to_multiset() == cells@.to_multiset()
            &&& forall|a: int, b: int|
                0 <= a < b < sorted@.len() ==> (#[trigger] sorted@[a]).morton_le(
                    #[trigger] sorted@[b],
                )
        },
{
    let outside: Vec<ecoord::octree::OctantIndex> = cells
        .iter()
        .map(|cell| ecoord::octree::OctantIndex::new_unchecked(cell.level, cell.x, cell.y, cell.z))
        .collect();
    let sorted = ecoord::octree::VecOctantIndexExt::sort_by_morton_indices(&outside)
        .map_err(std::io::Error::other)?;
    Ok(
        sorted
            .iter()
            .map(|(cell, _)| OctantIndex { level: cell.level, x: cell.x, y: cell.y, z: cell.z })
            .collect(),
    )
}

/// The cells `level_offset` levels below `base` in Morton order: position
/// `m` holds the cell whose offsets within the block are the de-interleaved
/// bits of `m`.
///
/// The level may be as deep as `can_list` admits: at most ten levels down,
/// so that the cells are counted in 32 bits, and no deeper than the target
/// can hold in one list.
pub fn descendants_in_morton_order(base: &OctantIndex, level_offset: u32) -> (cells: Vec<
    OctantIndex,
>)
    requires
        base.is_valid(),
        base.level + level_offset <= MAX_LEVEL,
        can_list(level_offset as nat),
    ensures
        cells@.len() == eight_pow(level_offset as nat),
        forall|m: int|
            0 <= m < cells@.len() ==> #[trigger] cells@[m] == base.nth_descendant(
                level_offset as nat,
                m as nat,
            ),
        forall|m: int| 0 <= m < cells@.len() ==> (#[trigger] cells@[m]).is_valid(),
{
    let listed = get_descendents(base, level_offset);
    proof {
        lemma_two_pow_bound(0, 32);
        assert forall|p: int| 0 <= p < listed@.len() implies (#[trigger] listed@[p]).fits_morton() by {
            lemma_listed_descendant(*base, level_offset as nat, p);
            lemma_two_pow_bound(listed@[p].level as nat, 32);
        }
    }
    match sort_by_morton_indices(&listed) {
        Ok(sorted) => {
            proof {
                lemma_morton_sorted_block(*base, level_offset as nat, listed@, sorted@);
                assert forall|m: int| 0 <= m < sorted@.len() implies (
                #[trigger] sorted@[m]).is_valid() by {
                    lemma_nth_descendant_valid(*base, level_offset as nat, m as nat);
                }
            }
            sorted
        },
        Err(_) => unreached(),
    }
}

/// The cell with relative code `code` below a valid cell is valid, lies
/// below that cell, and has that relative code.
pub proof fn lemma_nth_descendant_valid(base: OctantIndex, level_offset: nat, code: nat)
    requires
        base.is_valid(),
        base.level + level_offset <= MAX_LEVEL,
        code < eight_pow(level_offset),
    ensures
        base.nth_descendant(level_offset, code).is_valid(),
        base.nth_descendant(level_offset, code).level == base.level + level_offset,
        base.is_ancestor_or_self_of(base.nth_descendant(level_offset, code)),
        base.nth_descendant(level_offset, code).relative_code(level_offset) == code,
{
    lemma_interleave_of_axes(code, level_offset);
    let i = morton_axis(code, level_offset, 0);
    let j = morton_axis(code, level_offset, 1);
    let k = morton_axis(code, level_offset, 2);
    lemma_descendant_valid(base, level_offset, i, j, k);
    let n = two_pow(level_offset);
    let m = two_pow(base.level as nat);
    lemma_block_offset(base.x as nat, m, n, i);
    lemma_block_offset(base.y as nat, m, n, j);
    lemma_block_offset(base.z as nat, m, n, k);
}

} // verus!
