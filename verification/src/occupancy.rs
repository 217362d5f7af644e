//! Which octants of an octree are occupied and which hold content.

use crate::octant::{lemma_two_pow_positive, two_pow, OctantIndex};
use vstd::prelude::*;

verus! {

/// The order in which cells are kept: by level, then by x, y and z.
pub open spec fn precedes(a: OctantIndex, b: OctantIndex) -> bool {
    a.level < b.level || (a.level == b.level && (a.x < b.x || (a.x == b.x && (a.y < b.y || (a.y
        == b.y && a.z < b.z)))))
}

/// Every cell of the sequence precedes all that follow it.
pub open spec fn strictly_ascending(cells: Seq<OctantIndex>) -> bool {
    forall|i: int, j: int| 0 <= i < j < cells.len() ==> precedes(cells[i], cells[j])
}

/// The cells of an octree that are occupied, and those among them that hold
/// content of their own.
///
/// The lists are kept in ascending order, so what the library derives from
/// them depends on which cells were added and not on the order of adding.
/// With the cells that hold content the cells that contain them are kept,
/// so that every question is answered by a binary search.
#[derive(Debug, Clone)]
pub struct OctreeOccupancy {
    occupied: Vec<OctantIndex>,
    content: Vec<OctantIndex>,
    covering: Vec<OctantIndex>,
}

/// Whether `a` comes before `b` in the order of the lists.
fn cell_precedes(a: &OctantIndex, b: &OctantIndex) -> (before: bool)
    ensures
        before == precedes(*a, *b),
{
    if a.level != b.level {
        a.level < b.level
    } else if a.x != b.x {
        a.x < b.x
    } else if a.y != b.y {
        a.y < b.y
    } else {
        a.z < b.z
    }
}

/// Whether the ascending list `cells` holds `cell`.
fn holds(cells: &Vec<OctantIndex>, cell: &OctantIndex) -> (found: bool)
    requires
        strictly_ascending(cells@),
    ensures
        found == cells@.contains(*cell),
{
    let mut low: usize = 0;
    let mut high: usize = cells.len();
    while low < high
        invariant
            low <= high <= cells@.len(),
            strictly_ascending(cells@),
            forall|j: int| 0 <= j < low ==> precedes(cells@[j], *cell),
            forall|j: int| high <= j < cells@.len() ==> precedes(*cell, cells@[j]),
        decreases high - low,
    {
        let middle: usize = low + (high - low) / 2;
        if cells[middle] == *cell {
            return true;
        }
        if cell_precedes(&cells[middle], cell) {
            proof {
                assert forall|j: int| 0 <= j < middle + 1 implies precedes(cells@[j], *cell) by {
                    if j < middle {
                        assert(precedes(cells@[j], cells@[middle as int]));
                    }
                }
            }
            low = middle + 1;
        } else {
            proof {
                assert forall|j: int| middle <= j < cells@.len() implies precedes(
                    *cell,
                    cells@[j],
                ) by {
                    if middle < j {
                        assert(precedes(cells@[middle as int], cells@[j]));
                    }
                }
            }
            high = middle;
        }
    }
    proof {
        if cells@.contains(*cell) {
            let j = choose|j: int| 0 <= j < cells@.len() && cells@[j] == *cell;
            if j < low {
                assert(precedes(cells@[j], *cell));
            } else {
                assert(precedes(*cell, cells@[j]));
            }
        }
    }
    false
}

/// Puts `cell` at its place in the ascending list `cells`, unless the list
/// holds it already.
fn insert_ascending(cells: &mut Vec<OctantIndex>, cell: OctantIndex)
    requires
        strictly_ascending(old(cells)@),
    ensures
        strictly_ascending(final(cells)@),
        forall|c: OctantIndex|
            #[trigger] final(cells)@.contains(c) <==> old(cells)@.contains(c) || c == cell,
        old(cells)@.contains(cell) ==> final(cells)@ == old(cells)@,
{
    let mut at: usize = 0;
    while at < cells.len() && cell_precedes(&cells[at], &cell)
        invariant
            at <= cells@.len(),
            cells@ == old(cells)@,
            forall|j: int| 0 <= j < at ==> precedes(cells@[j], cell),
        decreases cells@.len() - at,
    {
        at += 1;
    }
    if at < cells.len() && cells[at] == cell {
        return ;
    }
    proof {
        assert forall|j: int| at <= j < cells@.len() implies precedes(cell, cells@[j]) by {
            if at < j {
                assert(precedes(cells@[at as int], cells@[j]));
            }
        }
        assert(!cells@.contains(cell)) by {
            if cells@.contains(cell) {
                let j = choose|j: int| 0 <= j < cells@.len() && cells@[j] == cell;
                if j < at {
                    assert(precedes(cells@[j], cell));
                } else {
                    assert(precedes(cell, cells@[j]));
                }
            }
        }
    }
    let ghost before = cells@;
    cells.insert(at, cell);
    proof {
        let after = cells@;
        assert(after == before.insert(at as int, cell));
        assert forall|i: int, j: int| 0 <= i < j < after.len() implies precedes(
            after[i],
            after[j],
        ) by {
            if j < at {
            } else if j == at {
                assert(after[i] == before[i]);
            } else if i < at {
                assert(after[j] == before[j - 1]);
                assert(after[i] == before[i]);
                assert(precedes(before[i], cell));
                assert(precedes(cell, before[j - 1]));
            } else if i == at {
                assert(after[j] == before[j - 1]);
            } else {
                assert(after[i] == before[i - 1]);
                assert(after[j] == before[j - 1]);
            }
        }
        assert forall|c: OctantIndex| #[trigger] after.contains(c) <==> before.contains(c) || c
            == cell by {
            if before.contains(c) {
                let j = choose|j: int| 0 <= j < before.len() && before[j] == c;
                if j < at {
                    assert(after[j] == c);
                } else {
                    assert(after[j + 1] == c);
                }
            }
            if c == cell {
                assert(after[at as int] == c);
            }
            if after.contains(c) {
                let j = choose|j: int| 0 <= j < after.len() && after[j] == c;
                if j < at {
                    assert(before[j] == c);
                } else if j > at {
                    assert(before[j - 1] == c);
                }
            }
        }
    }
}

/// Puts `index` and every cell that contains it into the ascending list
/// `cells`.
fn insert_with_ancestors(cells: &mut Vec<OctantIndex>, index: OctantIndex)
    requires
        strictly_ascending(old(cells)@),
        index.is_valid(),
    ensures
        strictly_ascending(final(cells)@),
        forall|c: OctantIndex|
            #[trigger] final(cells)@.contains(c) <==> old(cells)@.contains(c)
                || c.is_ancestor_or_self_of(index),
{
    let mut current = index;
    proof {
        lemma_ancestor_of_self(index);
    }
    loop
        invariant_except_break
            forall|c: OctantIndex|
                #[trigger] cells@.contains(c) <==> old(cells)@.contains(c) || (
                c.is_ancestor_or_self_of(index) && c.level > current.level),
        invariant
            index.is_valid(),
            current.is_valid(),
            current.is_ancestor_or_self_of(index),
            strictly_ascending(cells@),
        ensures
            strictly_ascending(cells@),
            forall|c: OctantIndex|
                #[trigger] cells@.contains(c) <==> old(cells)@.contains(c)
                    || c.is_ancestor_or_self_of(index),
        decreases current.level,
    {
        insert_ascending(cells, current);
        proof {
            assert forall|c: OctantIndex| #[trigger]
                cells@.contains(c) <==> old(cells)@.contains(c) || (c.is_ancestor_or_self_of(index)
                    && c.level >= current.level) by {
                if c.is_ancestor_or_self_of(index) && c.level == current.level {
                    assert(c == current);
                }
            }
        }
        match current.get_parent() {
            Some(parent) => {
                proof {
                    lemma_parent_is_ancestor(current, index);
                }
                current = parent;
            },
            None => {
                break ;
            },
        }
    }
}

impl OctreeOccupancy {
    /// The occupied cells, in ascending order.
    pub closed spec fn occupied_cells(&self) -> Seq<OctantIndex> {
        self.occupied@
    }

    /// The cells that hold content, in ascending order.
    pub closed spec fn content_cells(&self) -> Seq<OctantIndex> {
        self.content@
    }

    /// `cell` is occupied.
    pub open spec fn is_occupied(&self, cell: OctantIndex) -> bool {
        self.occupied_cells().contains(cell)
    }

    /// `cell` holds content of its own.
    pub open spec fn has_content(&self, cell: OctantIndex) -> bool {
        self.content_cells().contains(cell)
    }

    /// The cells that hold content or contain a cell that does, in
    /// ascending order.
    pub closed spec fn covering_cells(&self) -> Seq<OctantIndex> {
        self.covering@
    }

    /// `cell` or a cell below it holds content.
    pub open spec fn has_content_below(&self, cell: OctantIndex) -> bool {
        exists|i: int|
            0 <= i < self.content_cells().len() && cell.is_ancestor_or_self_of(
                #[trigger] self.content_cells()[i],
            )
    }

    /// The lists are ascending and hold valid cells only, every cell with
    /// content is occupied, with every occupied cell its parent is occupied,
    /// and the third list holds the cells that hold or contain content.
    pub open spec fn wf(&self) -> bool {
        &&& strictly_ascending(self.occupied_cells())
        &&& strictly_ascending(self.content_cells())
        &&& strictly_ascending(self.covering_cells())
        &&& forall|c: OctantIndex| #[trigger] self.is_occupied(c) ==> c.is_valid()
        &&& forall|c: OctantIndex| #[trigger] self.has_content(c) ==> self.is_occupied(c)
        &&& forall|c: OctantIndex|
            #[trigger] self.is_occupied(c) && c.level > 0 ==> self.is_occupied(c.parent())
        &&& forall|c: OctantIndex|
            #[trigger] self.covering_cells().contains(c) <==> self.has_content_below(c)
    }

    /// The occupancy of an octree without points.
    pub fn new() -> (occupancy: OctreeOccupancy)
        ensures
            occupancy.wf(),
            occupancy.occupied_cells() == Seq::<OctantIndex>::empty(),
            occupancy.content_cells() == Seq::<OctantIndex>::empty(),
    {
        OctreeOccupancy { occupied: Vec::new(), content: Vec::new(), covering: Vec::new() }
    }

    /// Marks `index` and every cell that contains it as occupied. An index
    /// that is not valid is refused and changes nothing.
    pub fn add_cell_occupancy(&mut self, index: OctantIndex) -> (accepted: bool)
        requires
            old(self).wf(),
        ensures
            final(self).wf(),
            accepted == index.is_valid(),
            final(self).content_cells() == old(self).content_cells(),
            !accepted ==> final(self).occupied_cells() == old(self).occupied_cells(),
            accepted ==> forall|c: OctantIndex|
                #[trigger] final(self).is_occupied(c) <==> old(self).is_occupied(c)
                    || c.is_ancestor_or_self_of(index),
    {
        if OctantIndex::new(index.level, index.x, index.y, index.z).is_none() {
            return false;
        }
        insert_with_ancestors(&mut self.occupied, index);
        proof {
            assert forall|c: OctantIndex| #[trigger]
                self.is_occupied(c) && c.level > 0 implies self.is_occupied(c.parent()) by {
                if old(self).is_occupied(c) {
                    assert(old(self).is_occupied(c.parent()));
                } else {
                    lemma_parent_is_ancestor(c, index);
                }
            }
            assert forall|c: OctantIndex| #[trigger] self.is_occupied(c) implies c.is_valid() by {
                if !old(self).is_occupied(c) {
                    lemma_ancestor_valid(c, index);
                }
            }
            assert forall|c: OctantIndex| #[trigger] self.has_content(c) implies self.is_occupied(
                c,
            ) by {
                assert(old(self).has_content(c));
                assert(old(self).is_occupied(c));
            }
            assert forall|c: OctantIndex| #[trigger]
                self.covering_cells().contains(c) <==> self.has_content_below(c) by {
                assert(old(self).covering_cells().contains(c) <==> old(self).has_content_below(c));
                assert(self.has_content_below(c) == old(self).has_content_below(c));
            }
        }
        true
    }

    /// Records that `index` holds content, and marks it and every cell that
    /// contains it as occupied. An index that is not valid is refused and
    /// changes nothing.
    pub fn add_content_cell(&mut self, index: OctantIndex) -> (accepted: bool)
        requires
            old(self).wf(),
        ensures
            final(self).wf(),
            accepted == index.is_valid(),
            !accepted ==> final(self).occupied_cells() == old(self).occupied_cells()
                && final(self).content_cells() == old(self).content_cells(),
            accepted ==> forall|c: OctantIndex|
                #[trigger] final(self).is_occupied(c) <==> old(self).is_occupied(c)
                    || c.is_ancestor_or_self_of(index),
            accepted ==> forall|c: OctantIndex|
                #[trigger] final(self).has_content(c) <==> old(self).has_content(c) || c == index,
    {
        if !self.add_cell_occupancy(index) {
            return false;
        }
        proof {
            lemma_ancestor_of_self(index);
            assert(self.is_occupied(index));
        }
        let ghost marked = *self;
        insert_ascending(&mut self.content, index);
        insert_with_ancestors(&mut self.covering, index);
        proof {
            assert(self.occupied@ == marked.occupied@);
            assert forall|c: OctantIndex| #[trigger] self.has_content(c) implies self.is_occupied(
                c,
            ) by {
                if c != index {
                    assert(old(self).has_content(c));
                    assert(old(self).is_occupied(c));
                    assert(marked.is_occupied(c));
                }
            }
            assert forall|c: OctantIndex| #[trigger]
                self.is_occupied(c) <==> old(self).is_occupied(c) || c.is_ancestor_or_self_of(
                    index,
                ) by {
                assert(self.is_occupied(c) == marked.is_occupied(c));
            }
            assert forall|c: OctantIndex| #[trigger]
                self.is_occupied(c) && c.level > 0 implies self.is_occupied(c.parent()) by {
                assert(marked.is_occupied(c));
                assert(marked.is_occupied(c.parent()));
            }
            assert forall|c: OctantIndex| #[trigger] self.is_occupied(c) implies c.is_valid() by {
                assert(marked.is_occupied(c));
            }
            assert forall|c: OctantIndex| #[trigger]
                self.covering_cells().contains(c) <==> self.has_content_below(c) by {
                assert(marked.covering_cells().contains(c) <==> marked.has_content_below(c));
                assert(self.covering@.contains(c) <==> marked.covering@.contains(c)
                    || c.is_ancestor_or_self_of(index));
                assert(marked.has_content_below(c) ==> self.has_content_below(c)) by {
                    if marked.has_content_below(c) {
                        let i = choose|i: int|
                            0 <= i < marked.content@.len() && c.is_ancestor_or_self_of(
                                #[trigger] marked.content@[i],
                            );
                        let below = marked.content@[i];
                        assert(marked.content@.contains(below));
                        assert(self.content@.contains(below));
                        let j = choose|j: int| 0 <= j < self.content@.len() && self.content@[j] == below;
                        assert(c.is_ancestor_or_self_of(self.content_cells()[j]));
                    }
                }
                assert(c.is_ancestor_or_self_of(index) ==> self.has_content_below(c)) by {
                    if c.is_ancestor_or_self_of(index) {
                        assert(self.content@.contains(index));
                        let j = choose|j: int| 0 <= j < self.content@.len() && self.content@[j] == index;
                        assert(c.is_ancestor_or_self_of(self.content_cells()[j]));
                    }
                }
                assert(self.has_content_below(c) ==> marked.has_content_below(c)
                    || c.is_ancestor_or_self_of(index)) by {
                    if self.has_content_below(c) {
                        let j = choose|j: int|
                            0 <= j < self.content_cells().len() && c.is_ancestor_or_self_of(
                                #[trigger] self.content_cells()[j],
                            );
                        let below = self.content@[j];
                        assert(self.content@.contains(below));
                        if below != index {
                            assert(marked.content@.contains(below));
                            let i = choose|i: int|
                                0 <= i < marked.content@.len() && marked.content@[i] == below;
                            assert(c.is_ancestor_or_self_of(marked.content_cells()[i]));
                        }
                    }
                }
            }
        }
        true
    }

    /// Whether `index` is occupied.
    pub fn is_cell_occupied(&self, index: OctantIndex) -> (occupied: bool)
        requires
            self.wf(),
        ensures
            occupied == self.is_occupied(index),
    {
        holds(&self.occupied, &index)
    }

    /// Whether `index` or a cell below it holds content.
    pub fn contains_content_cells(&self, index: OctantIndex) -> (found: bool)
        requires
            self.wf(),
        ensures
            found == self.has_content_below(index),
    {
        holds(&self.covering, &index)
    }

    /// The cells that hold content, in ascending order.
    pub fn cell_indices(&self) -> (cells: Vec<OctantIndex>)
        ensures
            cells@ == self.content_cells(),
    {
        self.content.clone()
    }

    /// The occupied cells, in ascending order.
    pub fn occupied_cell_indices(&self) -> (cells: Vec<OctantIndex>)
        ensures
            cells@ == self.occupied_cells(),
    {
        self.occupied.clone()
    }

    /// The number of cells that hold content.
    pub fn cell_count(&self) -> (count: usize)
        ensures
            count == self.content_cells().len(),
    {
        self.content.len()
    }

    /// The deepest level with an occupied cell, or `None` where no cell is
    /// occupied.
    pub fn get_max_occupied_level(&self) -> (level: Option<u32>)
        requires
            self.wf(),
        ensures
            level is None <==> self.occupied_cells().len() == 0,
            level matches Some(deepest) ==> {
                &&& exists|c: OctantIndex| #[trigger] self.is_occupied(c) && c.level == deepest
                &&& forall|c: OctantIndex| #[trigger] self.is_occupied(c) ==> c.level <= deepest
            },
    {
        let count = self.occupied.len();
        if count == 0 {
            return None;
        }
        let last = self.occupied[count - 1];
        proof {
            assert(self.is_occupied(last));
            assert forall|c: OctantIndex| #[trigger] self.is_occupied(c) implies c.level
                <= last.level by {
                let j = choose|j: int| 0 <= j < self.occupied@.len() && self.occupied@[j] == c;
                if j < count - 1 {
                    assert(precedes(self.occupied@[j], self.occupied@[count - 1]));
                }
            }
        }
        Some(last.level)
    }

    /// The deepest occupied level is that of the last occupied cell.
    pub proof fn lemma_deepest_is_last(&self)
        requires
            self.wf(),
            self.occupied_cells().len() > 0,
        ensures
            self.is_occupied(self.occupied_cells().last()),
            forall|c: OctantIndex|
                #[trigger] self.is_occupied(c) ==> c.level <= self.occupied_cells().last().level,
    {
        let cells = self.occupied_cells();
        assert(cells[cells.len() - 1] == cells.last());
        assert forall|c: OctantIndex| #[trigger] self.is_occupied(c) implies c.level
            <= cells.last().level by {
            let j = choose|j: int| 0 <= j < cells.len() && cells[j] == c;
            if j < cells.len() - 1 {
                assert(precedes(cells[j], cells[cells.len() - 1]));
            }
        }
    }

    /// The occupied cells of `level`, in ascending order.
    pub fn get_occupied_cell_indices_of_level(&self, level: u32) -> (cells: Vec<OctantIndex>)
        ensures
            cells@ == self.occupied_cells().filter(|c: OctantIndex| c.level == level),
    {
        let mut cells: Vec<OctantIndex> = Vec::new();
        let ghost of_level = |c: OctantIndex| c.level == level;
        let mut i: usize = 0;
        proof {
            reveal(Seq::filter);
            assert(self.occupied@.subrange(0, 0) == Seq::<OctantIndex>::empty());
        }
        while i < self.occupied.len()
            invariant
                i <= self.occupied@.len(),
                of_level == |c: OctantIndex| c.level == level,
                cells@ == self.occupied@.subrange(0, i as int).filter(of_level),
            decreases self.occupied@.len() - i,
        {
            proof {
                reveal(Seq::filter);
                let next = self.occupied@.subrange(0, i + 1);
                assert(next.drop_last() == self.occupied@.subrange(0, i as int));
                assert(next.last() == self.occupied@[i as int]);
            }
            if self.occupied[i].level == level {
                cells.push(self.occupied[i]);
            }
            i += 1;
        }
        proof {
            assert(self.occupied@.subrange(0, i as int) == self.occupied@);
        }
        cells
    }
}

/// Every cell is an ancestor of itself.
pub proof fn lemma_ancestor_of_self(cell: OctantIndex)
    ensures
        cell.is_ancestor_or_self_of(cell),
{
    let d = (cell.level - cell.level) as nat;
    assert(two_pow(d) == 1);
}

/// The parent of an ancestor is an ancestor.
pub proof fn lemma_parent_is_ancestor(cell: OctantIndex, below: OctantIndex)
    requires
        cell.is_ancestor_or_self_of(below),
        cell.level > 0,
    ensures
        cell.parent().is_ancestor_or_self_of(below),
{
    let d = (below.level - cell.level) as nat;
    lemma_two_pow_positive(d);
    assert(two_pow(d + 1) == 2 * two_pow(d));
    vstd::arithmetic::div_mod::lemma_div_denominator(below.x as int, two_pow(d) as int, 2);
    vstd::arithmetic::div_mod::lemma_div_denominator(below.y as int, two_pow(d) as int, 2);
    vstd::arithmetic::div_mod::lemma_div_denominator(below.z as int, two_pow(d) as int, 2);
    assert(two_pow(d) * 2 == 2 * two_pow(d));
}

/// The ancestors of a valid cell are valid.
pub proof fn lemma_ancestor_valid(cell: OctantIndex, below: OctantIndex)
    requires
        cell.is_ancestor_or_self_of(below),
        below.is_valid(),
    ensures
        cell.is_valid(),
{
    let d = (below.level - cell.level) as nat;
    let n = two_pow(d);
    lemma_two_pow_positive(d);
    crate::octant::lemma_two_pow_adds(cell.level as nat, d);
    lemma_quotient_below(below.x as int, n as int, two_pow(cell.level as nat) as int);
    lemma_quotient_below(below.y as int, n as int, two_pow(cell.level as nat) as int);
    lemma_quotient_below(below.z as int, n as int, two_pow(cell.level as nat) as int);
}

/// A number below `m * n` has a quotient by `n` below `m`.
proof fn lemma_quotient_below(x: int, n: int, m: int)
    requires
        0 <= x < m * n,
        0 < n,
    ensures
        0 <= x / n < m,
{
    assert(m * n == n * m) by (nonlinear_arith);
    vstd::arithmetic::div_mod::lemma_multiply_divide_lt(x, n, m);
    vstd::arithmetic::div_mod::lemma_div_pos_is_pos(x, n);
}

/// Two ascending lists that hold the same cells are the same list.
pub proof fn lemma_ascending_unique(a: Seq<OctantIndex>, b: Seq<OctantIndex>)
    requires
        strictly_ascending(a),
        strictly_ascending(b),
        forall|c: OctantIndex| a.contains(c) <==> b.contains(c),
    ensures
        a == b,
    decreases a.len(),
{
    if a.len() == 0 {
        if b.len() > 0 {
            assert(b.contains(b[0]));
        }
        assert(a =~= b);
    } else {
        assert(a.contains(a.last()));
        assert(b.contains(a.last()));
        let at = choose|at: int| 0 <= at < b.len() && b[at] == a.last();
        assert(b.contains(b.last()));
        assert(a.contains(b.last()));
        let back = choose|back: int| 0 <= back < a.len() && a[back] == b.last();
        if at < b.len() - 1 {
            assert(precedes(b[at], b[b.len() - 1]));
            if back < a.len() - 1 {
                assert(precedes(a[back], a[a.len() - 1]));
            }
        }
        assert(a.last() == b.last());
        let a_rest = a.drop_last();
        let b_rest = b.drop_last();
        assert forall|c: OctantIndex| a_rest.contains(c) <==> b_rest.contains(c) by {
            if a_rest.contains(c) {
                let i = choose|i: int| 0 <= i < a_rest.len() && a_rest[i] == c;
                assert(a[i] == c);
                assert(precedes(a[i], a[a.len() - 1]));
                assert(a.contains(c));
                let j = choose|j: int| 0 <= j < b.len() && b[j] == c;
                assert(b_rest[j] == c);
            }
            if b_rest.contains(c) {
                let i = choose|i: int| 0 <= i < b_rest.len() && b_rest[i] == c;
                assert(b[i] == c);
                assert(precedes(b[i], b[b.len() - 1]));
                assert(b.contains(c));
                let j = choose|j: int| 0 <= j < a.len() && a[j] == c;
                assert(a_rest[j] == c);
            }
        }
        lemma_ascending_unique(a_rest, b_rest);
        assert(a =~= a_rest.push(a.last()));
        assert(b =~= b_rest.push(b.last()));
    }
}

/// The lists of an occupancy depend only on which cells are occupied and
/// which hold content, not on the order in which they were added: two
/// occupancies that agree on every cell list their cells alike.
pub proof fn lemma_order_is_canonical(a: &OctreeOccupancy, b: &OctreeOccupancy)
    requires
        a.wf(),
        b.wf(),
        forall|c: OctantIndex| a.is_occupied(c) <==> b.is_occupied(c),
        forall|c: OctantIndex| a.has_content(c) <==> b.has_content(c),
    ensures
        a.occupied_cells() == b.occupied_cells(),
        a.content_cells() == b.content_cells(),
{
    assert forall|c: OctantIndex|
        a.occupied_cells().contains(c) <==> b.occupied_cells().contains(c) by {
        assert(a.is_occupied(c) <==> b.is_occupied(c));
    }
    assert forall|c: OctantIndex|
        a.content_cells().contains(c) <==> b.content_cells().contains(c) by {
        assert(a.has_content(c) <==> b.has_content(c));
    }
    lemma_ascending_unique(a.occupied_cells(), b.occupied_cells());
    lemma_ascending_unique(a.content_cells(), b.content_cells());
}

/// With every occupied cell, all the cells that contain it are occupied.
pub proof fn lemma_ancestors_occupied(occupancy: &OctreeOccupancy, cell: OctantIndex, levels_up: nat)
    requires
        occupancy.wf(),
        occupancy.is_occupied(cell),
        levels_up <= cell.level,
    ensures
        occupancy.is_occupied(cell.ancestor(levels_up)),
        cell.ancestor(levels_up).is_ancestor_or_self_of(cell),
        cell.ancestor(levels_up).level == cell.level - levels_up,
    decreases levels_up,
{
    let above = cell.ancestor(levels_up);
    lemma_two_pow_positive(levels_up);
    assert(cell.is_valid());
    vstd::arithmetic::div_mod::lemma_div_pos_is_pos(cell.x as int, two_pow(levels_up) as int);
    vstd::arithmetic::div_mod::lemma_div_pos_is_pos(cell.y as int, two_pow(levels_up) as int);
    vstd::arithmetic::div_mod::lemma_div_pos_is_pos(cell.z as int, two_pow(levels_up) as int);
    vstd::arithmetic::div_mod::lemma_div_is_ordered_by_denominator(
        cell.x as int,
        1,
        two_pow(levels_up) as int,
    );
    vstd::arithmetic::div_mod::lemma_div_is_ordered_by_denominator(
        cell.y as int,
        1,
        two_pow(levels_up) as int,
    );
    vstd::arithmetic::div_mod::lemma_div_is_ordered_by_denominator(
        cell.z as int,
        1,
        two_pow(levels_up) as int,
    );
    assert(above.is_ancestor_or_self_of(cell));
    if levels_up == 0 {
        assert(above == cell);
    } else {
        let below = cell.ancestor((levels_up - 1) as nat);
        lemma_ancestors_occupied(occupancy, cell, (levels_up - 1) as nat);
        lemma_parent_is_ancestor(below, cell);
        assert(below.parent() == above);
    }
}

} // verus!
