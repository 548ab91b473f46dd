//! Spatial hash bookkeeping: which grid cell each entity is in and which
//! entities each cell holds, with queries over rectangles of cells. Turning
//! world positions into cell coordinates happens with the float data.
use vstd::prelude::*;
use std::collections::HashMap;
use crate::api::types::EntityId;
use crate::id_list::{without, lemma_without, remove_id};

verus! {

broadcast use vstd::std_specs::hash::group_hash_axioms;

/// Cell coordinates `(ix, iy)`.
pub type Cell = (i32, i32);

/// Hash-map key of a cell: `ix * 2^32 + (iy + 2^31)`, one key per cell.
pub open spec fn cell_key(c: Cell) -> i64 {
    (c.0 * 0x1_0000_0000int + (c.1 + 0x8000_0000int)) as i64
}

proof fn lemma_cell_key_injective(a: Cell, b: Cell)
    ensures
        cell_key(a) == cell_key(b) <==> a == b,
{
    assert(i32::MIN <= a.0 <= i32::MAX && i32::MIN <= b.0 <= i32::MAX);
}

fn key_of(c: Cell) -> (r: i64)
    ensures
        r == cell_key(c),
{
    (c.0 as i64) * 0x1_0000_0000i64 + ((c.1 as i64) + 0x8000_0000i64)
}

/// The cells as plain values: cell → entities in it, in insertion order.
pub open spec fn cells_model(m: Map<i64, Vec<EntityId>>) -> Map<Cell, Seq<EntityId>> {
    Map::new(|c: Cell| m.contains_key(cell_key(c)), |c: Cell| m[cell_key(c)]@)
}

/// Entities of a cell (empty if the cell holds none).
pub open spec fn cell_list(cells: Map<Cell, Seq<EntityId>>, c: Cell) -> Seq<EntityId> {
    if cells.contains_key(c) {
        cells[c]
    } else {
        Seq::empty()
    }
}

/// Cells after taking `id` out of cell `c` (a cell left empty is dropped).
pub open spec fn take_out(cells: Map<Cell, Seq<EntityId>>, c: Cell, id: EntityId) -> Map<
    Cell,
    Seq<EntityId>,
> {
    if !cells.contains_key(c) {
        cells
    } else if without(cells[c], id).len() == 0 {
        cells.remove(c)
    } else {
        cells.insert(c, without(cells[c], id))
    }
}

/// Cells after adding `id` at the end of cell `c`.
pub open spec fn put_in(cells: Map<Cell, Seq<EntityId>>, c: Cell, id: EntityId) -> Map<
    Cell,
    Seq<EntityId>,
> {
    cells.insert(c, cell_list(cells, c).push(id))
}

/// Cells after `insert(id, c)`.
pub open spec fn cells_after_insert(
    cells: Map<Cell, Seq<EntityId>>,
    where_: Map<u32, Cell>,
    id: EntityId,
    c: Cell,
) -> Map<Cell, Seq<EntityId>> {
    if where_.contains_key(id.0) {
        if where_[id.0] == c {
            cells
        } else {
            put_in(take_out(cells, where_[id.0], id), c, id)
        }
    } else {
        put_in(cells, c, id)
    }
}

/// Entities of cells `(ix, y)` for `y0 <= y < y1`, in that order.
pub open spec fn column_entities(cells: Map<Cell, Seq<EntityId>>, ix: int, y0: int, y1: int) -> Seq<
    EntityId,
>
    decreases y1 - y0,
{
    if y1 <= y0 {
        Seq::empty()
    } else {
        column_entities(cells, ix, y0, y1 - 1) + cell_list(cells, (ix as i32, (y1 - 1) as i32))
    }
}

/// Entities of the cells with `x0 <= x < x1` and `y0 <= y < y1`, column by column.
pub open spec fn block_entities(
    cells: Map<Cell, Seq<EntityId>>,
    x0: int,
    x1: int,
    y0: int,
    y1: int,
) -> Seq<EntityId>
    decreases x1 - x0,
{
    if x1 <= x0 {
        Seq::empty()
    } else {
        block_entities(cells, x0, x1 - 1, y0, y1) + column_entities(cells, x1 - 1, y0, y1)
    }
}

/// No entity appears twice in a list.
pub open spec fn no_duplicates(s: Seq<EntityId>) -> bool {
    forall|i: int, j: int| 0 <= i < j < s.len() ==> s[i] != s[j]
}

/// Every entity is in exactly the cell recorded for it, once; every cell
/// listed is non-empty.
pub open spec fn placement_consistent(cells: Map<Cell, Seq<EntityId>>, where_: Map<u32, Cell>) -> bool {
    &&& forall|k: u32|
        #[trigger] where_.contains_key(k) ==> cells.contains_key(where_[k]) && cells[where_[k]].contains(
            EntityId(k),
        )
    &&& forall|c: Cell, x: EntityId|
        #[trigger] cells.contains_key(c) && #[trigger] cells[c].contains(x) ==> where_.contains_key(x.0)
            && where_[x.0] == c
    &&& forall|c: Cell| #[trigger] cells.contains_key(c) ==> no_duplicates(cells[c]) && cells[c].len() > 0
}

/// Spatial hash bookkeeping for O(1) proximity queries.
pub struct CellIndex {
    /// Entities of each non-empty cell, keyed by `cell_key`.
    cells: HashMap<i64, Vec<EntityId>>,
    /// The cell of each entity.
    entity_cells: HashMap<u32, Cell>,
}

impl CellIndex {
    #[verifier::type_invariant]
    spec fn inv(self) -> bool {
        placement_consistent(cells_model(self.cells@), self.entity_cells@)
    }

    /// Entities of each non-empty cell.
    pub closed spec fn cells(&self) -> Map<Cell, Seq<EntityId>> {
        cells_model(self.cells@)
    }

    /// Cell of each entity.
    pub closed spec fn placement(&self) -> Map<u32, Cell> {
        self.entity_cells@
    }

    pub fn new() -> (r: Self)
        ensures
            r.cells() == Map::<Cell, Seq<EntityId>>::empty(),
            r.placement() == Map::<u32, Cell>::empty(),
            placement_consistent(r.cells(), r.placement()),
    {
        let r = CellIndex { cells: HashMap::new(), entity_cells: HashMap::new() };
        assert(cells_model(r.cells@) =~= Map::<Cell, Seq<EntityId>>::empty());
        r
    }

    /// Create with room for about `entity_capacity` entities.
    pub fn with_capacity(entity_capacity: usize) -> (r: Self)
        ensures
            r.cells() == Map::<Cell, Seq<EntityId>>::empty(),
            r.placement() == Map::<u32, Cell>::empty(),
            placement_consistent(r.cells(), r.placement()),
    {
        let r = CellIndex {
            cells: HashMap::with_capacity(entity_capacity / 4),
            entity_cells: HashMap::with_capacity(entity_capacity),
        };
        assert(cells_model(r.cells@) =~= Map::<Cell, Seq<EntityId>>::empty());
        r
    }

    /// Put an entity in a cell. If it is already there nothing changes;
    /// if it is in another cell it moves.
    pub fn insert(&mut self, id: EntityId, cell: Cell)
        ensures
            final(self).placement() == old(self).placement().insert(id.0, cell),
            final(self).cells() == cells_after_insert(old(self).cells(), old(self).placement(), id, cell),
            placement_consistent(final(self).cells(), final(self).placement()),
            final(self).cells().contains_key(cell) && final(self).cells()[cell].contains(id),
    {
        proof { use_type_invariant(&*self); }
        let old_cell = match self.entity_cells.get(&id.0) {
            Some(c) => Some(*c),
            None => None,
        };
        match old_cell {
            Some(oc) => {
                if oc.0 == cell.0 && oc.1 == cell.1 {
                    assert(self.entity_cells@.insert(id.0, cell) =~= self.entity_cells@);
                    assert(EntityId(id.0) == id);
                    return;
                }
            },
            None => {},
        }
        let mut taken = CellIndex::new();
        std::mem::swap(&mut taken, self);
        let CellIndex { cells: mut cells, entity_cells: mut where_ } = taken;
        let ghost c0 = cells_model(cells@);
        let ghost w0 = where_@;
        match old_cell {
            Some(oc) => take_out_exec(&mut cells, oc, id),
            None => {},
        }
        let ghost c1 = cells_model(cells@);
        put_in_exec(&mut cells, cell, id);
        where_.insert(id.0, cell);
        proof {
            lemma_insert_consistent(c0, w0, id, cell);
            assert(where_@.contains_key(id.0) && where_@[id.0] == cell);
            assert(EntityId(id.0) == id);
        }
        *self = CellIndex { cells, entity_cells: where_ };
    }

    /// Remove an entity from the grid.
    pub fn remove(&mut self, id: EntityId)
        ensures
            final(self).placement() == old(self).placement().remove(id.0),
            final(self).cells() == if old(self).placement().contains_key(id.0) {
                take_out(old(self).cells(), old(self).placement()[id.0], id)
            } else {
                old(self).cells()
            },
            placement_consistent(final(self).cells(), final(self).placement()),
    {
        proof { use_type_invariant(&*self); }
        let mut taken = CellIndex::new();
        std::mem::swap(&mut taken, self);
        let CellIndex { cells: mut cells, entity_cells: mut where_ } = taken;
        let ghost c0 = cells_model(cells@);
        let ghost w0 = where_@;
        let removed = where_.remove(&id.0);
        match removed {
            Some(c) => take_out_exec(&mut cells, c, id),
            None => {},
        }
        proof {
            lemma_remove_consistent(c0, w0, id);
        }
        *self = CellIndex { cells, entity_cells: where_ };
    }

    /// Clear all entities from the grid.
    pub fn clear(&mut self)
        ensures
            final(self).cells() == Map::<Cell, Seq<EntityId>>::empty(),
            final(self).placement() == Map::<u32, Cell>::empty(),
            placement_consistent(final(self).cells(), final(self).placement()),
    {
        *self = CellIndex::new();
    }

    /// Entities in the cells `min.0 <= ix <= max.0`, `min.1 <= iy <= max.1`,
    /// column by column, each cell's entities in insertion order.
    pub fn query_cells(&self, min: Cell, max: Cell) -> (r: Vec<EntityId>)
        ensures
            r@ == block_entities(self.cells(), min.0 as int, max.0 + 1, min.1 as int, max.1 + 1),
    {
        let mut result: Vec<EntityId> = Vec::new();
        let mut ix: i64 = min.0 as i64;
        let x_end: i64 = max.0 as i64 + 1;
        let y_end: i64 = max.1 as i64 + 1;
        while ix < x_end
            invariant
                min.0 <= ix,
                ix <= x_end || ix == min.0,
                x_end == max.0 + 1,
                y_end == max.1 + 1,
                result@ == block_entities(self.cells(), min.0 as int, ix as int, min.1 as int, y_end as int),
            decreases x_end - ix,
        {
            let mut iy: i64 = min.1 as i64;
            let ghost before = result@;
            while iy < y_end
                invariant
                    min.0 <= ix < x_end,
                    x_end == max.0 + 1,
                    min.1 <= iy,
                    iy <= y_end || iy == min.1,
                    y_end == max.1 + 1,
                    result@ == before + column_entities(self.cells(), ix as int, min.1 as int, iy as int),
                decreases y_end - iy,
            {
                let c: Cell = (ix as i32, iy as i32);
                let ghost mid = result@;
                let k = key_of(c);
                match self.cells.get(&k) {
                    Some(list) => {
                        let mut j: usize = 0;
                        while j < list.len()
                            invariant
                                j <= list@.len(),
                                result@ == mid + list@.take(j as int),
                            decreases list@.len() - j,
                        {
                            result.push(list[j]);
                            proof {
                                assert(list@.take(j + 1) =~= list@.take(j as int).push(list@[j as int]));
                            }
                            j = j + 1;
                        }
                        proof {
                            assert(list@.take(list@.len() as int) =~= list@);
                            assert(self.cells().contains_key(c));
                        }
                    },
                    None => {
                        proof {
                            assert(!self.cells().contains_key(c));
                            assert(mid + Seq::<EntityId>::empty() =~= mid);
                        }
                    },
                }
                proof {
                    assert(cell_list(self.cells(), c) == cell_list(self.cells(), (ix as i32, iy as i32)));
                    assert(before + column_entities(self.cells(), ix as int, min.1 as int, iy + 1)
                        =~= before + column_entities(self.cells(), ix as int, min.1 as int, iy as int)
                        + cell_list(self.cells(), c));
                }
                iy = iy + 1;
            }
            proof {
                if iy != y_end {
                    assert(column_entities(self.cells(), ix as int, min.1 as int, iy as int) =~= Seq::<EntityId>::empty());
                    assert(column_entities(self.cells(), ix as int, min.1 as int, y_end as int) =~= Seq::<EntityId>::empty());
                }
            }
            ix = ix + 1;
        }
        proof {
            if ix != x_end {
                assert(block_entities(self.cells(), min.0 as int, x_end as int, min.1 as int, y_end as int) =~= Seq::<EntityId>::empty());
            }
        }
        result
    }

    /// Number of entities in the grid.
    pub fn len(&self) -> (r: usize)
        ensures
            r == self.placement().len(),
            placement_consistent(self.cells(), self.placement()),
    {
        proof { use_type_invariant(self); }
        self.entity_cells.len()
    }

    /// Whether the grid is empty.
    pub fn is_empty(&self) -> (r: bool)
        ensures
            r == (self.placement().len() == 0),
    {
        self.entity_cells.len() == 0
    }

    /// Number of non-empty cells.
    pub fn cell_count(&self) -> (r: usize)
        ensures
            r == self.cells().len(),
    {
        proof {
            lemma_cells_model_len(self.cells@);
        }
        self.cells.len()
    }

    /// Check if an entity is in the grid.
    pub fn contains(&self, id: EntityId) -> (r: bool)
        ensures
            r == self.placement().contains_key(id.0),
    {
        self.entity_cells.contains_key(&id.0)
    }

    /// Get the cell an entity is in (if present).
    pub fn get_cell(&self, id: EntityId) -> (r: Option<Cell>)
        ensures
            r == if self.placement().contains_key(id.0) {
                Some(self.placement()[id.0])
            } else {
                None
            },
    {
        match self.entity_cells.get(&id.0) {
            Some(c) => Some(*c),
            None => None,
        }
    }
}

/// Cell whose key is `k` (every 64-bit key is the key of exactly one cell).
pub open spec fn cell_of_key(k: i64) -> Cell {
    (((k as int) / 0x1_0000_0000int) as i32, ((k as int) % 0x1_0000_0000int - 0x8000_0000int) as i32)
}

proof fn lemma_cell_of_key(k: i64)
    ensures
        cell_key(cell_of_key(k)) == k,
{
    let q = (k as int) / 0x1_0000_0000int;
    let r = (k as int) % 0x1_0000_0000int;
    assert(k == q * 0x1_0000_0000int + r && 0 <= r < 0x1_0000_0000int);
    assert(-0x8000_0000int <= q < 0x8000_0000int);
}

proof fn lemma_cells_model_len(m: Map<i64, Vec<EntityId>>)
    requires
        m.dom().finite(),
    ensures
        cells_model(m).len() == m.len(),
{
    let f = |k: i64| cell_of_key(k);
    assert forall|k1: i64, k2: i64| m.dom().contains(k1) && m.dom().contains(k2) && #[trigger] f(k1)
        == #[trigger] f(k2) implies k1 == k2 by {
        lemma_cell_of_key(k1);
        lemma_cell_of_key(k2);
    }
    assert forall|c: Cell| #![auto] m.dom().map(f).contains(c) <==> cells_model(m).dom().contains(c) by {
        if cells_model(m).dom().contains(c) {
            lemma_cell_of_key(cell_key(c));
            lemma_cell_key_injective(cell_of_key(cell_key(c)), c);
            assert(m.dom().contains(cell_key(c)) && f(cell_key(c)) == c);
        }
        if m.dom().map(f).contains(c) {
            let k = choose|k: i64| m.dom().contains(k) && f(k) == c;
            lemma_cell_of_key(k);
        }
    }
    assert(m.dom().map(f) =~= cells_model(m).dom());
    vstd::set_lib::lemma_map_size(m.dom(), cells_model(m).dom(), f);
}

fn take_out_exec(cells: &mut HashMap<i64, Vec<EntityId>>, c: Cell, id: EntityId)
    ensures
        cells_model(final(cells)@) == take_out(cells_model(old(cells)@), c, id),
        forall|k: i64| #[trigger] final(cells)@.contains_key(k) ==> old(cells)@.contains_key(k),
{
    let k = key_of(c);
    let ghost before = cells@;
    match cells.remove(&k) {
        Some(list) => {
            let mut list = list;
            remove_id(&mut list, id);
            if list.len() > 0 {
                cells.insert(k, list);
                proof {
                    lemma_model_insert(before, c, list);
                    assert(cells@ =~= before.insert(k, list));
                }
            } else {
                proof {
                    lemma_model_remove(before, c);
                }
            }
        },
        None => {
            proof {
                assert(!cells_model(before).contains_key(c));
            }
        },
    }
}

fn put_in_exec(cells: &mut HashMap<i64, Vec<EntityId>>, c: Cell, id: EntityId)
    ensures
        cells_model(final(cells)@) == put_in(cells_model(old(cells)@), c, id),
{
    let k = key_of(c);
    let ghost before = cells@;
    let mut list = match cells.remove(&k) {
        Some(l) => l,
        None => Vec::new(),
    };
    proof {
        if cells_model(before).contains_key(c) {
            assert(list@ == cells_model(before)[c]);
        } else {
            assert(list@ =~= Seq::<EntityId>::empty());
        }
    }
    list.push(id);
    cells.insert(k, list);
    proof {
        assert(cells@ =~= before.insert(k, list));
        lemma_model_insert(before, c, list);
    }
}

proof fn lemma_model_insert(m: Map<i64, Vec<EntityId>>, c: Cell, v: Vec<EntityId>)
    ensures
        cells_model(m.insert(cell_key(c), v)) == cells_model(m).insert(c, v@),
{
    assert forall|d: Cell| #![auto] cell_key(d) == cell_key(c) <==> d == c by {
        lemma_cell_key_injective(d, c);
    }
    assert(cells_model(m.insert(cell_key(c), v)) =~= cells_model(m).insert(c, v@));
}

proof fn lemma_model_remove(m: Map<i64, Vec<EntityId>>, c: Cell)
    ensures
        cells_model(m.remove(cell_key(c))) == cells_model(m).remove(c),
{
    assert forall|d: Cell| #![auto] cell_key(d) == cell_key(c) <==> d == c by {
        lemma_cell_key_injective(d, c);
    }
    assert(cells_model(m.remove(cell_key(c))) =~= cells_model(m).remove(c));
}

/// In a consistent placement an entity sits in one cell only, and at most
/// once in it: a query over any rectangle of cells lists it at most once.
pub proof fn lemma_one_cell_per_entity(
    cells: Map<Cell, Seq<EntityId>>,
    where_: Map<u32, Cell>,
    id: EntityId,
    d: Cell,
    e: Cell,
)
    requires
        placement_consistent(cells, where_),
        cells.contains_key(d) && cells[d].contains(id),
        cells.contains_key(e) && cells[e].contains(id),
    ensures
        d == e,
        where_.contains_key(id.0) && where_[id.0] == d,
        no_duplicates(cells[d]),
{
}

/// Removing an id keeps a list free of duplicates.
proof fn lemma_without_no_duplicates(s: Seq<EntityId>, x: EntityId)
    requires
        no_duplicates(s),
    ensures
        no_duplicates(without(s, x)),
    decreases s.len(),
{
    if s.len() > 0 {
        let r = s.drop_last();
        lemma_without_no_duplicates(r, x);
        lemma_without(r, x);
        if s.last() != x {
            let w = without(s, x);
            assert(w == without(r, x).push(s.last()));
            assert(!r.contains(s.last())) by {
                if r.contains(s.last()) {
                    let i = choose|i: int| 0 <= i < r.len() && r[i] == s.last();
                    assert(s[i] == s[s.len() - 1]);
                }
            }
            assert forall|i: int, j: int| 0 <= i < j < w.len() implies w[i] != w[j] by {
                if j == w.len() - 1 {
                    assert(without(r, x).contains(w[i]));
                }
            }
        }
    }
}

proof fn lemma_insert_consistent(cells: Map<Cell, Seq<EntityId>>, where_: Map<u32, Cell>, id: EntityId, c: Cell)
    requires
        placement_consistent(cells, where_),
    ensures
        placement_consistent(cells_after_insert(cells, where_, id, c), where_.insert(id.0, c)),
{
    let w2 = where_.insert(id.0, c);
    if where_.contains_key(id.0) && where_[id.0] == c {
        assert(w2 =~= where_);
        return;
    }
    let cells1 = if where_.contains_key(id.0) {
        take_out(cells, where_[id.0], id)
    } else {
        cells
    };
    let cells2 = put_in(cells1, c, id);
    assert(cells2 == cells_after_insert(cells, where_, id, c));
    let has_old = where_.contains_key(id.0);
    let oc = where_[id.0];
    if has_old {
        lemma_without(cells[oc], id);
        lemma_without_no_duplicates(cells[oc], id);
    }
    // `id` is in no list of `cells1`.
    assert forall|d: Cell| #[trigger] cells1.contains_key(d) implies !cells1[d].contains(id) by {
        if has_old && d == oc {
        } else {
            assert(cells1[d] == cells[d]);
            if cells[d].contains(id) {
                assert(where_.contains_key(id.0) && where_[id.0] == d);
            }
        }
    }
    // Lists of `cells1` are lists of `cells` minus `id`.
    assert forall|d: Cell, x: EntityId| #[trigger] cells1.contains_key(d) && #[trigger] cells1[d].contains(x)
        implies cells.contains_key(d) && cells[d].contains(x) && x != id by {
        if has_old && d == oc {
        } else {
            assert(cells1[d] == cells[d]);
        }
    }
    assert forall|d: Cell| #[trigger] cells1.contains_key(d) implies no_duplicates(cells1[d]) && cells1[d].len() > 0 by {
        if !(has_old && d == oc) {
            assert(cells1[d] == cells[d]);
        }
    }
    let l = cell_list(cells1, c);
    assert(!l.contains(id)) by {
        if cells1.contains_key(c) {
        }
    }
    assert forall|k: u32| #[trigger] w2.contains_key(k) implies cells2.contains_key(w2[k]) && cells2[w2[k]].contains(
        EntityId(k),
    ) by {
        if k == id.0 {
            assert(EntityId(k) == id);
            assert(cells2[c] == l.push(id));
            assert(l.push(id)[l.len() as int] == id);
        } else {
            let d = where_[k];
            assert(cells.contains_key(d) && cells[d].contains(EntityId(k)));
            assert(EntityId(k) != id);
            assert(cells1.contains_key(d) && cells1[d].contains(EntityId(k))) by {
                if has_old && d == oc {
                    assert(without(cells[oc], id).contains(EntityId(k)));
                }
            }
            if d == c {
                let j = choose|j: int| 0 <= j < l.len() && l[j] == EntityId(k);
                assert(cells2[c][j] == EntityId(k));
            }
        }
    }
    assert forall|d: Cell, x: EntityId| #[trigger] cells2.contains_key(d) && #[trigger] cells2[d].contains(x)
        implies w2.contains_key(x.0) && w2[x.0] == d by {
        if d == c {
            if x != id {
                let j = choose|j: int| 0 <= j < cells2[c].len() && cells2[c][j] == x;
                assert(j < l.len());
                assert(l[j] == x);
                assert(cells1.contains_key(c));
                assert(cells1[c].contains(x));
                assert(cells[c].contains(x));
                assert(x.0 != id.0);
            }
        } else {
            assert(cells1.contains_key(d) && cells2[d] == cells1[d]);
            assert(cells[d].contains(x) && x != id);
            assert(x.0 != id.0);
        }
    }
    assert forall|d: Cell| #[trigger] cells2.contains_key(d) implies no_duplicates(cells2[d]) && cells2[d].len() > 0 by {
        if d == c {
            assert forall|i: int, j: int| 0 <= i < j < cells2[c].len() implies cells2[c][i] != cells2[c][j] by {
                if j == l.len() {
                    assert(l.contains(cells2[c][i]));
                } else {
                    assert(cells1.contains_key(c));
                }
            }
        } else {
            assert(cells2[d] == cells1[d]);
        }
    }
}

proof fn lemma_remove_consistent(cells: Map<Cell, Seq<EntityId>>, where_: Map<u32, Cell>, id: EntityId)
    requires
        placement_consistent(cells, where_),
    ensures
        placement_consistent(
            if where_.contains_key(id.0) {
                take_out(cells, where_[id.0], id)
            } else {
                cells
            },
            where_.remove(id.0),
        ),
{
    let w2 = where_.remove(id.0);
    if !where_.contains_key(id.0) {
        assert(w2 =~= where_);
        assert forall|d: Cell, x: EntityId| #[trigger] cells.contains_key(d) && #[trigger] cells[d].contains(x)
            implies w2.contains_key(x.0) && w2[x.0] == d by {
        }
        return;
    }
    let oc = where_[id.0];
    let cells1 = take_out(cells, oc, id);
    lemma_without(cells[oc], id);
    lemma_without_no_duplicates(cells[oc], id);
    assert forall|k: u32| #[trigger] w2.contains_key(k) implies cells1.contains_key(w2[k]) && cells1[w2[k]].contains(
        EntityId(k),
    ) by {
        let d = where_[k];
        assert(cells.contains_key(d) && cells[d].contains(EntityId(k)));
        assert(EntityId(k) != id);
        if d == oc {
            assert(without(cells[oc], id).contains(EntityId(k)));
        }
    }
    assert forall|d: Cell, x: EntityId| #[trigger] cells1.contains_key(d) && #[trigger] cells1[d].contains(x)
        implies w2.contains_key(x.0) && w2[x.0] == d by {
        if d == oc {
            assert(cells[oc].contains(x) && x != id);
        } else {
            assert(cells1[d] == cells[d]);
            if x == id {
                assert(where_[id.0] == d);
            }
        }
        assert(x.0 != id.0);
    }
    assert forall|d: Cell| #[trigger] cells1.contains_key(d) implies no_duplicates(cells1[d]) && cells1[d].len() > 0 by {
        if d != oc {
            assert(cells1[d] == cells[d]);
        }
    }
}

} // verus!
