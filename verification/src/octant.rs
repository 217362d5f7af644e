//! Octant indices of a complete octree and the arithmetic of their
//! descendants.

use vstd::prelude::*;

verus! {

/// The deepest level an octant index may have: the coordinates of deeper
/// octants do not fit into 32 bits.
pub const MAX_LEVEL: u32 = 32;

/// Two to the power `e`.
pub open spec fn two_pow(e: nat) -> nat
    decreases e,
{
    if e == 0 {
        1
    } else {
        2 * two_pow((e - 1) as nat)
    }
}

/// Eight to the power `e`: the number of octants at depth `e` below a cell.
pub open spec fn eight_pow(e: nat) -> nat
    decreases e,
{
    if e == 0 {
        1
    } else {
        8 * eight_pow((e - 1) as nat)
    }
}

/// A cell of a complete octree: its level and its position along each axis
/// among the `2^level` cells of that level.
#[derive(Debug, Clone, Copy, PartialEq, Eq, Structural, Hash)]
pub struct OctantIndex {
    pub level: u32,
    pub x: u64,
    pub y: u64,
    pub z: u64,
}

impl OctantIndex {
    /// The level is in range and each coordinate lies within the level.
    pub open spec fn is_valid(self) -> bool {
        &&& self.level <= MAX_LEVEL
        &&& self.x < two_pow(self.level as nat)
        &&& self.y < two_pow(self.level as nat)
        &&& self.z < two_pow(self.level as nat)
    }

    /// The cell `level_offset` levels below `self` at offsets `(i, j, k)`
    /// within the block of cells that `self` covers there.
    pub open spec fn descendant(self, level_offset: nat, i: nat, j: nat, k: nat) -> OctantIndex {
        OctantIndex {
            level: (self.level + level_offset) as u32,
            x: (self.x * two_pow(level_offset) + i) as u64,
            y: (self.y * two_pow(level_offset) + j) as u64,
            z: (self.z * two_pow(level_offset) + k) as u64,
        }
    }

    /// `self` is `other` or one of the cells that contain it.
    pub open spec fn is_ancestor_or_self_of(self, other: OctantIndex) -> bool {
        &&& self.level <= other.level
        &&& self.x as nat == other.x as nat / two_pow((other.level - self.level) as nat)
        &&& self.y as nat == other.y as nat / two_pow((other.level - self.level) as nat)
        &&& self.z as nat == other.z as nat / two_pow((other.level - self.level) as nat)
    }

    /// The cell `levels_up` levels up that contains `self`.
    pub open spec fn ancestor(self, levels_up: nat) -> OctantIndex {
        OctantIndex {
            level: (self.level - levels_up) as u32,
            x: (self.x as nat / two_pow(levels_up)) as u64,
            y: (self.y as nat / two_pow(levels_up)) as u64,
            z: (self.z as nat / two_pow(levels_up)) as u64,
        }
    }

    /// The cell one level up that contains `self`.
    pub open spec fn parent(self) -> OctantIndex {
        OctantIndex {
            level: (self.level - 1) as u32,
            x: self.x / 2,
            y: self.y / 2,
            z: self.z / 2,
        }
    }

    /// The root cell.
    pub fn origin() -> (index: OctantIndex)
        ensures
            index == (OctantIndex { level: 0, x: 0, y: 0, z: 0 }),
            index.is_valid(),
    {
        OctantIndex { level: 0, x: 0, y: 0, z: 0 }
    }

    /// The index with the given level and coordinates, if it is valid.
    pub fn new(level: u32, x: u64, y: u64, z: u64) -> (index: Option<OctantIndex>)
        ensures
            index == if (OctantIndex { level, x, y, z }).is_valid() {
                Some(OctantIndex { level, x, y, z })
            } else {
                None
            },
    {
        if level > MAX_LEVEL {
            return None;
        }
        let cells: u64 = cells_per_axis(level);
        if x < cells && y < cells && z < cells {
            Some(OctantIndex { level, x, y, z })
        } else {
            None
        }
    }

    /// The parent cell, or `None` for the root level.
    pub fn get_parent(&self) -> (parent: Option<OctantIndex>)
        ensures
            parent == if self.level > 0 {
                Some(self.parent())
            } else {
                None
            },
            self.level > 0 && self.is_valid() ==> self.parent().is_valid(),
    {
        if self.level == 0 {
            return None;
        }
        Some(OctantIndex { level: self.level - 1, x: self.x / 2, y: self.y / 2, z: self.z / 2 })
    }

    /// Whether `self` is `other` or one of the cells that contain it.
    pub fn contains(&self, other: &OctantIndex) -> (contained: bool)
        requires
            other.level <= MAX_LEVEL,
        ensures
            contained == self.is_ancestor_or_self_of(*other),
    {
        if self.level > other.level {
            return false;
        }
        let scale: u64 = cells_per_axis(other.level - self.level);
        proof {
            lemma_two_pow_positive((other.level - self.level) as nat);
        }
        self.x == other.x / scale && self.y == other.y / scale && self.z == other.z / scale
    }
}

/// The number of cells along one axis at `level`.
pub fn cells_per_axis(level: u32) -> (cells: u64)
    requires
        level <= MAX_LEVEL,
    ensures
        cells == two_pow(level as nat),
        0 < cells <= 0x1_0000_0000,
{
    let mut cells: u64 = 1;
    let mut done: u32 = 0;
    proof {
        lemma_two_pow_bound(0, 32);
    }
    while done < level
        invariant
            done <= level <= MAX_LEVEL,
            cells == two_pow(done as nat),
            0 < cells,
            two_pow(32) == 0x1_0000_0000,
        decreases level - done,
    {
        proof {
            lemma_two_pow_bound((done + 1) as nat, 32);
        }
        cells = cells * 2;
        done = done + 1;
    }
    proof {
        lemma_two_pow_bound(level as nat, 32);
    }
    cells
}

/// Powers of two are positive.
pub proof fn lemma_two_pow_positive(e: nat)
    ensures
        two_pow(e) > 0,
    decreases e,
{
    if e > 0 {
        lemma_two_pow_positive((e - 1) as nat);
    }
}

/// Powers of two grow with the exponent; `2^32` is `0x1_0000_0000`.
pub proof fn lemma_two_pow_bound(a: nat, b: nat)
    requires
        a <= b,
    ensures
        0 < two_pow(a) <= two_pow(b),
        two_pow(32) == 0x1_0000_0000,
    decreases b,
{
    lemma_two_pow_positive(a);
    if a < b {
        lemma_two_pow_bound(a, (b - 1) as nat);
    }
    assert(two_pow(32) == 0x1_0000_0000) by {
        reveal_with_fuel(two_pow, 33);
    }
}

/// Powers of eight are positive, and `8^e` is the cube of `2^e`.
pub proof fn lemma_eight_pow_cube(e: nat)
    ensures
        eight_pow(e) > 0,
        eight_pow(e) == two_pow(e) * two_pow(e) * two_pow(e),
    decreases e,
{
    if e > 0 {
        lemma_eight_pow_cube((e - 1) as nat);
        let h = two_pow((e - 1) as nat);
        let n = two_pow(e);
        assert(n * n * n == 8 * (h * h * h)) by (nonlinear_arith)
            requires
                n == 2 * h,
        ;
    } else {
        let n = two_pow(e);
        assert(n * n * n == 1) by (nonlinear_arith)
            requires
                n == 1,
        ;
    }
}

/// Powers of eight grow with the exponent.
pub proof fn lemma_eight_pow_bound(a: nat, b: nat)
    requires
        a <= b,
    ensures
        0 < eight_pow(a) <= eight_pow(b),
    decreases b,
{
    lemma_eight_pow_cube(a);
    if a < b {
        lemma_eight_pow_bound(a, (b - 1) as nat);
    }
}

/// `2^(a + b)` is `2^a * 2^b`.
pub proof fn lemma_two_pow_adds(a: nat, b: nat)
    ensures
        two_pow(a + b) == two_pow(a) * two_pow(b),
    decreases a,
{
    if a > 0 {
        lemma_two_pow_adds((a - 1) as nat, b);
        assert(two_pow(a + b) == 2 * two_pow((a - 1 + b) as nat));
        assert(2 * (two_pow((a - 1) as nat) * two_pow(b)) == (2 * two_pow((a - 1) as nat))
            * two_pow(b)) by (nonlinear_arith);
    } else {
        assert(two_pow(0) * two_pow(b) == two_pow(b)) by (nonlinear_arith)
            requires
                two_pow(0) == 1,
        ;
    }
}

/// The descendants of a valid cell are valid as long as the level allows.
pub proof fn lemma_descendant_valid(base: OctantIndex, level_offset: nat, i: nat, j: nat, k: nat)
    requires
        base.is_valid(),
        base.level + level_offset <= MAX_LEVEL,
        i < two_pow(level_offset),
        j < two_pow(level_offset),
        k < two_pow(level_offset),
    ensures
        base.descendant(level_offset, i, j, k).is_valid(),
        base.descendant(level_offset, i, j, k).level == base.level + level_offset,
        base.descendant(level_offset, i, j, k).x == base.x * two_pow(level_offset) + i,
        base.descendant(level_offset, i, j, k).y == base.y * two_pow(level_offset) + j,
        base.descendant(level_offset, i, j, k).z == base.z * two_pow(level_offset) + k,
        base.is_ancestor_or_self_of(base.descendant(level_offset, i, j, k)),
{
    let n = two_pow(level_offset);
    let m = two_pow(base.level as nat);
    lemma_two_pow_adds(base.level as nat, level_offset);
    lemma_two_pow_bound((base.level + level_offset) as nat, 32);
    lemma_two_pow_positive(level_offset);
    lemma_block_offset(base.x as nat, m, n, i);
    lemma_block_offset(base.y as nat, m, n, j);
    lemma_block_offset(base.z as nat, m, n, k);
}

/// Cell `i` of block `h` among `m` blocks of `n` cells lies below `m * n`, and
/// dividing its position by `n` gives the block back.
pub proof fn lemma_block_offset(h: nat, m: nat, n: nat, i: nat)
    requires
        h < m,
        i < n,
    ensures
        h * n + i < m * n,
        (h * n + i) / n == h,
        (h * n + i) % n == i,
{
    assert(h * n + i < m * n) by (nonlinear_arith)
        requires
            h < m,
            i < n,
    ;
    vstd::arithmetic::div_mod::lemma_fundamental_div_mod_converse(
        (h * n + i) as int,
        n as int,
        h as int,
        i as int,
    );
}

} // verus!
